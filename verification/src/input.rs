use vstd::prelude::*;

verus! {

use vstd::string::StrSliceExecFns;

/// The keys the simulation reacts to. Anything else maps to `Unmapped`.
#[derive(Clone, Copy, Debug, Eq, PartialEq, Structural, Hash)]
pub enum Key {
    W,
    A,
    S,
    D,
    Left,
    Right,
    Up,
    Down,
    Space,
    Unmapped,
}

#[derive(Clone, Copy, Debug, Eq, PartialEq, Structural)]
pub enum KeyState {
    Pressed,
    Released,
}

#[derive(Clone, Copy, Debug, Eq, PartialEq, Structural)]
pub enum MouseButton {
    Main,
    Aux,
    Secondary,
    Fourth,
    Fifth,
}

/// A raw platform input event, as handed in by the event loop.
#[derive(Clone, Copy, Debug, Eq, PartialEq, Structural)]
pub enum InputEvent {
    KeyboardEvent { code: Key, state: KeyState, repeated: bool },
    MouseEvent { button: MouseButton, state: KeyState, x: i32, y: i32 },
}

/// The set of currently pressed keys plus the most recently auto-repeated
/// key. Pure state: no timers, no debouncing.
#[derive(Clone, Copy, Debug, Eq, PartialEq, Structural)]
pub struct InputState {
    key_w: bool,
    key_a: bool,
    key_s: bool,
    key_d: bool,
    key_left: bool,
    key_right: bool,
    key_up: bool,
    key_down: bool,
    key_space: bool,
    key_unmapped: bool,
    repeated_key: Option<Key>,
}

impl InputState {
    /// Whether `code` is in the pressed set.
    pub closed spec fn spec_pressed(self, code: Key) -> bool {
        match code {
            Key::W => self.key_w,
            Key::A => self.key_a,
            Key::S => self.key_s,
            Key::D => self.key_d,
            Key::Left => self.key_left,
            Key::Right => self.key_right,
            Key::Up => self.key_up,
            Key::Down => self.key_down,
            Key::Space => self.key_space,
            Key::Unmapped => self.key_unmapped,
        }
    }

    /// The most recently auto-repeated key, if the latest press was a repeat.
    pub closed spec fn spec_repeated(self) -> Option<Key> {
        self.repeated_key
    }

    /// The state after releasing `code`.
    pub closed spec fn spec_release(self, code: Key) -> InputState {
        match code {
            Key::W => InputState { key_w: false, ..self },
            Key::A => InputState { key_a: false, ..self },
            Key::S => InputState { key_s: false, ..self },
            Key::D => InputState { key_d: false, ..self },
            Key::Left => InputState { key_left: false, ..self },
            Key::Right => InputState { key_right: false, ..self },
            Key::Up => InputState { key_up: false, ..self },
            Key::Down => InputState { key_down: false, ..self },
            Key::Space => InputState { key_space: false, ..self },
            Key::Unmapped => InputState { key_unmapped: false, ..self },
        }
    }

    /// The state after pressing `code`.
    pub closed spec fn spec_press(self, code: Key, repeated: bool) -> InputState {
        let rep = if repeated {
            Some(code)
        } else {
            None
        };
        match code {
            Key::W => InputState { key_w: true, repeated_key: rep, ..self },
            Key::A => InputState { key_a: true, repeated_key: rep, ..self },
            Key::S => InputState { key_s: true, repeated_key: rep, ..self },
            Key::D => InputState { key_d: true, repeated_key: rep, ..self },
            Key::Left => InputState { key_left: true, repeated_key: rep, ..self },
            Key::Right => InputState { key_right: true, repeated_key: rep, ..self },
            Key::Up => InputState { key_up: true, repeated_key: rep, ..self },
            Key::Down => InputState { key_down: true, repeated_key: rep, ..self },
            Key::Space => InputState { key_space: true, repeated_key: rep, ..self },
            Key::Unmapped => InputState { key_unmapped: true, repeated_key: rep, ..self },
        }
    }

    /// What releasing does to the pressed set: `code` leaves, the rest and
    /// the repeat slot stay.
    pub proof fn lemma_release(self, code: Key)
        ensures
            forall|k: Key|
                self.spec_release(code).spec_pressed(k) == (k != code && self.spec_pressed(k)),
            self.spec_release(code).spec_repeated() == self.spec_repeated(),
    {
        assert forall|k: Key|
            self.spec_release(code).spec_pressed(k) == (k != code && self.spec_pressed(k)) by {
            match k {
                Key::W => {},
                Key::A => {},
                Key::S => {},
                Key::D => {},
                Key::Left => {},
                Key::Right => {},
                Key::Up => {},
                Key::Down => {},
                Key::Space => {},
                Key::Unmapped => {},
            }
        }
    }

    /// What pressing does to the pressed set: `code` joins, the rest stays;
    /// the repeat slot records a repeated press and is cleared by a fresh one.
    pub proof fn lemma_press(self, code: Key, repeated: bool)
        ensures
            forall|k: Key|
                self.spec_press(code, repeated).spec_pressed(k) == (k == code
                    || self.spec_pressed(k)),
            self.spec_press(code, repeated).spec_repeated() == if repeated {
                Some(code)
            } else {
                None::<Key>
            },
    {
        assert forall|k: Key|
            self.spec_press(code, repeated).spec_pressed(k) == (k == code || self.spec_pressed(
                k,
            )) by {
            match k {
                Key::W => {},
                Key::A => {},
                Key::S => {},
                Key::D => {},
                Key::Left => {},
                Key::Right => {},
                Key::Up => {},
                Key::Down => {},
                Key::Space => {},
                Key::Unmapped => {},
            }
        }
    }

    pub fn new() -> (r: InputState)
        ensures
            forall|k: Key| !r.spec_pressed(k),
            r.spec_repeated() == None::<Key>,
    {
        let r = InputState {
            key_w: false,
            key_a: false,
            key_s: false,
            key_d: false,
            key_left: false,
            key_right: false,
            key_up: false,
            key_down: false,
            key_space: false,
            key_unmapped: false,
            repeated_key: None,
        };
        proof {
            assert forall|k: Key| !r.spec_pressed(k) by {
                match k {
                    Key::W => {},
                    Key::A => {},
                    Key::S => {},
                    Key::D => {},
                    Key::Left => {},
                    Key::Right => {},
                    Key::Up => {},
                    Key::Down => {},
                    Key::Space => {},
                    Key::Unmapped => {},
                }
            }
        }
        r
    }

    /// Remove `code` from the pressed set; the repeat slot is untouched.
    pub fn release_key(&mut self, code: Key)
        ensures
            *final(self) == old(self).spec_release(code),
            forall|k: Key|
                final(self).spec_pressed(k) == (k != code && old(self).spec_pressed(k)),
            final(self).spec_repeated() == old(self).spec_repeated(),
    {
        let next = match code {
            Key::W => InputState { key_w: false, ..*self },
            Key::A => InputState { key_a: false, ..*self },
            Key::S => InputState { key_s: false, ..*self },
            Key::D => InputState { key_d: false, ..*self },
            Key::Left => InputState { key_left: false, ..*self },
            Key::Right => InputState { key_right: false, ..*self },
            Key::Up => InputState { key_up: false, ..*self },
            Key::Down => InputState { key_down: false, ..*self },
            Key::Space => InputState { key_space: false, ..*self },
            Key::Unmapped => InputState { key_unmapped: false, ..*self },
        };
        *self = next;
        proof {
            old(self).lemma_release(code);
        }
    }

    /// Add `code` to the pressed set. An auto-repeated press records `code`
    /// in the repeat slot; a fresh press clears the slot.
    pub fn press_key(&mut self, code: Key, repeated: bool)
        ensures
            *final(self) == old(self).spec_press(code, repeated),
            forall|k: Key| final(self).spec_pressed(k) == (k == code || old(self).spec_pressed(k)),
            final(self).spec_repeated() == if repeated {
                Some(code)
            } else {
                None::<Key>
            },
    {
        let rep = if repeated {
            Some(code)
        } else {
            None
        };
        let next = match code {
            Key::W => InputState { key_w: true, repeated_key: rep, ..*self },
            Key::A => InputState { key_a: true, repeated_key: rep, ..*self },
            Key::S => InputState { key_s: true, repeated_key: rep, ..*self },
            Key::D => InputState { key_d: true, repeated_key: rep, ..*self },
            Key::Left => InputState { key_left: true, repeated_key: rep, ..*self },
            Key::Right => InputState { key_right: true, repeated_key: rep, ..*self },
            Key::Up => InputState { key_up: true, repeated_key: rep, ..*self },
            Key::Down => InputState { key_down: true, repeated_key: rep, ..*self },
            Key::Space => InputState { key_space: true, repeated_key: rep, ..*self },
            Key::Unmapped => InputState { key_unmapped: true, repeated_key: rep, ..*self },
        };
        *self = next;
        proof {
            old(self).lemma_press(code, repeated);
        }
    }

    pub fn is_pressed(&self, code: Key) -> (r: bool)
        ensures
            r == self.spec_pressed(code),
    {
        match code {
            Key::W => self.key_w,
            Key::A => self.key_a,
            Key::S => self.key_s,
            Key::D => self.key_d,
            Key::Left => self.key_left,
            Key::Right => self.key_right,
            Key::Up => self.key_up,
            Key::Down => self.key_down,
            Key::Space => self.key_space,
            Key::Unmapped => self.key_unmapped,
        }
    }
}

/// The key a platform key-code string names; any unknown code maps to
/// `Unmapped`.
pub open spec fn key_of_code(s: Seq<char>) -> Key {
    if s == "KeyW"@ {
        Key::W
    } else if s == "KeyA"@ {
        Key::A
    } else if s == "KeyS"@ {
        Key::S
    } else if s == "KeyD"@ {
        Key::D
    } else if s == "ArrowLeft"@ {
        Key::Left
    } else if s == "ArrowRight"@ {
        Key::Right
    } else if s == "ArrowUp"@ {
        Key::Up
    } else if s == "ArrowDown"@ {
        Key::Down
    } else if s == "Space"@ {
        Key::Space
    } else {
        Key::Unmapped
    }
}

/// Whether two strings hold the same characters.
fn str_eq(a: &str, b: &str) -> (r: bool)
    ensures
        r == (a@ == b@),
{
    let an = a.unicode_len();
    let bn = b.unicode_len();
    if an != bn {
        proof {
            if a@ == b@ {
                assert(a@.len() == b@.len());
            }
        }
        return false;
    }
    let mut i: usize = 0;
    while i < an
        invariant
            an == a@.len(),
            an == b@.len(),
            0 <= i <= an,
            forall|j: int| 0 <= j < i ==> a@[j] == b@[j],
        decreases an - i,
    {
        let ca = a.get_char(i);
        let cb = b.get_char(i);
        if ca != cb {
            proof {
                assert(a@[i as int] != b@[i as int]);
            }
            return false;
        }
        i = i + 1;
    }
    proof {
        assert(a@ =~= b@);
    }
    true
}

impl<'a> From<&'a str> for Key {
    /// Map a platform key-code string to the key it names.
    fn from(s: &'a str) -> (r: Key) {
        if str_eq(s, "KeyW") {
            Key::W
        } else if str_eq(s, "KeyA") {
            Key::A
        } else if str_eq(s, "KeyS") {
            Key::S
        } else if str_eq(s, "KeyD") {
            Key::D
        } else if str_eq(s, "ArrowLeft") {
            Key::Left
        } else if str_eq(s, "ArrowRight") {
            Key::Right
        } else if str_eq(s, "ArrowUp") {
            Key::Up
        } else if str_eq(s, "ArrowDown") {
            Key::Down
        } else if str_eq(s, "Space") {
            Key::Space
        } else {
            Key::Unmapped
        }
    }
}

impl<'a> vstd::std_specs::convert::FromSpecImpl<&'a str> for Key {
    open spec fn obeys_from_spec() -> bool {
        true
    }

    open spec fn from_spec(s: &'a str) -> Key {
        key_of_code(s@)
    }
}

impl Default for InputState {
    fn default() -> (r: InputState)
        ensures
            forall|k: Key| !r.spec_pressed(k),
            r.spec_repeated() == None::<Key>,
    {
        InputState::new()
    }
}

} // verus!
