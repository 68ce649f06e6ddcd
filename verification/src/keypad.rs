use vstd::prelude::*;

verus! {

/// Number of keys on the hexadecimal keypad.
pub const NUM_KEYS: usize = 16;

/// The sixteen keys of the hexadecimal keypad, each pressed or released.
pub struct Keypad {
    pub keys: [bool; 16],
}

impl View for Keypad {
    type V = Seq<bool>;

    /// Entry `k` tells whether key `k` is held down.
    open spec fn view(&self) -> Seq<bool> {
        self.keys@
    }
}

impl Keypad {
    /// A keypad with every key released.
    pub fn new() -> (keypad: Keypad)
        ensures
            keypad@ == Seq::new(16, |k: int| false),
    {
        let keypad = Keypad { keys: [false; 16] };
        assert(keypad@ =~= Seq::new(16, |k: int| false));
        keypad
    }

    /// Whether `key` is held down.
    pub fn is_pressed(&self, key: usize) -> (pressed: bool)
        requires
            key < NUM_KEYS,
        ensures
            pressed == self@[key as int],
    {
        self.keys[key]
    }

    /// Presses (`true`) or releases (`false`) one key; the others keep their state.
    pub fn set_key(&mut self, key: usize, pressed: bool)
        requires
            key < NUM_KEYS,
        ensures
            final(self)@ == old(self)@.update(key as int, pressed),
    {
        self.keys[key] = pressed;
    }
}

/// After `set_key(key, pressed)`, `is_pressed(key)` reports `pressed` and every other key
/// reports what it did before.
pub proof fn lemma_set_then_read(keys: Seq<bool>, key: int, other: int, pressed: bool)
    requires
        keys.len() == 16,
        0 <= key < 16,
        0 <= other < 16,
        other != key,
    ensures
        keys.update(key, pressed)[key] == pressed,
        keys.update(key, pressed)[other] == keys[other],
{
}

} // verus!
