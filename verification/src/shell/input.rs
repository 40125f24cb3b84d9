//! Keyboard and mouse buttons, and the text typed since it was last taken.

use vstd::prelude::*;
use crate::text::{is_control, is_control_char};

verus! {

/// A physical key.
#[derive(Clone, Copy, Debug, PartialEq, Eq, Structural)]
pub enum Key {
    KeyA,
    KeyB,
    KeyC,
    KeyD,
    KeyG,
    KeyH,
    KeyM,
    KeyP,
    KeyR,
    KeyS,
    KeyW,
    ShiftLeft,
    ControlLeft,
    Tab,
    Backquote,
    ArrowUp,
    ArrowDown,
    ArrowLeft,
    ArrowRight,
    Enter,
    Backspace,
    Delete,
    Home,
    End,
    PageUp,
    PageDown,
    /// Any other key, by its code.
    Other(u32),
}

/// A mouse button.
#[derive(Clone, Copy, Debug, PartialEq, Eq, Structural)]
pub enum Button {
    Left,
    Right,
    Middle,
    /// Any other button, by its number.
    Other(u16),
}

/// What is held down, and what was typed.
#[derive(Debug)]
pub struct InputState {
    pressed_keys: Vec<Key>,
    pressed_mouse: Vec<Button>,
    typed: String,
}

impl Default for InputState {
    fn default() -> (r: Self)
        ensures
            forall|k: Key| !r.key_down(k),
            forall|b: Button| !r.button_down(b),
            r.text().len() == 0,
    {
        InputState { pressed_keys: Vec::new(), pressed_mouse: Vec::new(), typed: String::new() }
    }
}

impl InputState {
    /// Is the key held?
    pub closed spec fn key_down(&self, key: Key) -> bool {
        self.pressed_keys@.contains(key)
    }

    /// Is the button held?
    pub closed spec fn button_down(&self, button: Button) -> bool {
        self.pressed_mouse@.contains(button)
    }

    /// What was typed and not yet taken.
    pub closed spec fn text(&self) -> Seq<char> {
        self.typed@
    }

    /// Nothing held, nothing typed.
    pub fn new() -> (r: Self)
        ensures
            forall|k: Key| !r.key_down(k),
            forall|b: Button| !r.button_down(b),
            r.text().len() == 0,
    {
        InputState { pressed_keys: Vec::new(), pressed_mouse: Vec::new(), typed: String::new() }
    }

    /// Record a key state change.
    pub fn key_event(&mut self, key: Key, pressed: bool)
        ensures
            forall|k: Key|
                final(self).key_down(k) == (if k == key {
                    pressed
                } else {
                    old(self).key_down(k)
                }),
            forall|b: Button| final(self).button_down(b) == old(self).button_down(b),
            final(self).text() == old(self).text(),
    {
        let ghost before = self.pressed_keys@;
        let mut kept: Vec<Key> = Vec::new();
        let mut i: usize = 0;
        while i < self.pressed_keys.len()
            invariant
                self.pressed_keys@ == before,
                i <= before.len(),
                forall|j: int|
                    0 <= j < kept@.len() ==> #[trigger] kept@[j] != key && before.contains(kept@[j]),
                forall|j: int|
                    0 <= j < i && before[j] != key ==> kept@.contains(#[trigger] before[j]),
            decreases before.len() - i,
        {
            let held: Key = self.pressed_keys[i];
            assert(before.contains(before[i as int]));
            if held != key {
                let ghost had = kept@;
                kept.push(held);
                proof {
                    lemma_push_contains(had, held);
                    assert forall|j: int| 0 <= j < i + 1 && before[j] != key implies kept@.contains(
                        #[trigger] before[j],
                    ) by {
                        assert(had.push(held).contains(before[j]));
                    }
                }
            }
            i += 1;
        }
        proof {
            assert forall|k: Key| #[trigger] kept@.contains(k) <==> k != key && before.contains(k) by {
                if k != key && before.contains(k) {
                    let j = choose|j: int| 0 <= j < before.len() && before[j] == k;
                    assert(kept@.contains(before[j]));
                }
            }
        }
        let ghost had = kept@;
        if pressed {
            kept.push(key);
            proof {
                lemma_push_contains(had, key);
            }
        }
        self.pressed_keys = kept;
    }

    /// Record a mouse button state change.
    pub fn mouse_button_event(&mut self, button: Button, pressed: bool)
        ensures
            forall|b: Button|
                final(self).button_down(b) == (if b == button {
                    pressed
                } else {
                    old(self).button_down(b)
                }),
            forall|k: Key| final(self).key_down(k) == old(self).key_down(k),
            final(self).text() == old(self).text(),
    {
        let ghost before = self.pressed_mouse@;
        let mut kept: Vec<Button> = Vec::new();
        let mut i: usize = 0;
        while i < self.pressed_mouse.len()
            invariant
                self.pressed_mouse@ == before,
                i <= before.len(),
                forall|j: int|
                    0 <= j < kept@.len() ==> #[trigger] kept@[j] != button && before.contains(kept@[j]),
                forall|j: int|
                    0 <= j < i && before[j] != button ==> kept@.contains(#[trigger] before[j]),
            decreases before.len() - i,
        {
            let held: Button = self.pressed_mouse[i];
            assert(before.contains(before[i as int]));
            if held != button {
                let ghost had = kept@;
                kept.push(held);
                proof {
                    lemma_push_contains(had, held);
                    assert forall|j: int| 0 <= j < i + 1 && before[j] != button implies kept@.contains(
                        #[trigger] before[j],
                    ) by {
                        assert(had.push(held).contains(before[j]));
                    }
                }
            }
            i += 1;
        }
        proof {
            assert forall|b: Button| #[trigger] kept@.contains(b) <==> b != button && before.contains(b) by {
                if b != button && before.contains(b) {
                    let j = choose|j: int| 0 <= j < before.len() && before[j] == b;
                    assert(kept@.contains(before[j]));
                }
            }
        }
        let ghost had = kept@;
        if pressed {
            kept.push(button);
            proof {
                lemma_push_contains(had, button);
            }
        }
        self.pressed_mouse = kept;
    }

    /// Record text produced by a key press. Control characters are dropped: they
    /// arrive as keys and mean actions.
    pub fn text_input(&mut self, text: &str)
        ensures
            final(self).text() == old(self).text() + text@.filter(|c: char| !is_control_char(c)),
            forall|k: Key| final(self).key_down(k) == old(self).key_down(k),
            forall|b: Button| final(self).button_down(b) == old(self).button_down(b),
    {
        let chars = crate::text::chars_of(text);
        let ghost before = self.typed@;
        let ghost keep = |c: char| !is_control_char(c);
        let mut i: usize = 0;
        proof {
            reveal(Seq::filter);
            assert(before + text@.take(0).filter(keep) =~= before);
        }
        while i < chars.len()
            invariant
                chars@ == text@,
                i <= chars@.len(),
                keep == (|c: char| !is_control_char(c)),
                self.typed@ == before + text@.take(i as int).filter(keep),
                self.pressed_keys@ == old(self).pressed_keys@,
                self.pressed_mouse@ == old(self).pressed_mouse@,
            decreases chars@.len() - i,
        {
            let c: char = chars[i];
            proof {
                reveal(Seq::filter);
                assert(text@.take(i + 1).drop_last() =~= text@.take(i as int));
            }
            if !is_control(c) {
                self.typed.push(c);
                assert(self.typed@ =~= before + text@.take(i + 1).filter(keep));
            }
            i += 1;
        }
        assert(text@.take(i as int) =~= text@);
    }

    /// Consume the characters typed since the last call.
    pub fn take_typed(&mut self) -> (r: String)
        ensures
            r@ == old(self).text(),
            final(self).text().len() == 0,
            forall|k: Key| final(self).key_down(k) == old(self).key_down(k),
            forall|b: Button| final(self).button_down(b) == old(self).button_down(b),
    {
        let mut taken = String::new();
        std::mem::swap(&mut taken, &mut self.typed);
        taken
    }

    /// Drop what was typed, so that stale keystrokes do not appear in a newly
    /// opened field.
    pub fn clear_typed(&mut self)
        ensures
            final(self).text().len() == 0,
            forall|k: Key| final(self).key_down(k) == old(self).key_down(k),
            forall|b: Button| final(self).button_down(b) == old(self).button_down(b),
    {
        self.typed = String::new();
    }

    /// Whether a key is held.
    pub fn is_key_pressed(&self, key: Key) -> (r: bool)
        ensures
            r == self.key_down(key),
    {
        let mut i: usize = 0;
        while i < self.pressed_keys.len()
            invariant
                i <= self.pressed_keys@.len(),
                forall|j: int| 0 <= j < i ==> self.pressed_keys@[j] != key,
            decreases self.pressed_keys@.len() - i,
        {
            if self.pressed_keys[i] == key {
                assert(self.pressed_keys@[i as int] == key);
                return true;
            }
            i += 1;
        }
        false
    }

    /// Whether a mouse button is held.
    pub fn is_mouse_pressed(&self, button: Button) -> (r: bool)
        ensures
            r == self.button_down(button),
    {
        let mut i: usize = 0;
        while i < self.pressed_mouse.len()
            invariant
                i <= self.pressed_mouse@.len(),
                forall|j: int| 0 <= j < i ==> self.pressed_mouse@[j] != button,
            decreases self.pressed_mouse@.len() - i,
        {
            if self.pressed_mouse[i] == button {
                assert(self.pressed_mouse@[i as int] == button);
                return true;
            }
            i += 1;
        }
        false
    }

    /// Whether the left mouse button is held, which lets the mouse turn the
    /// camera.
    pub fn is_look_active(&self) -> (r: bool)
        ensures
            r == self.button_down(Button::Left),
    {
        self.is_mouse_pressed(Button::Left)
    }
}

proof fn lemma_push_contains<T>(s: Seq<T>, y: T)
    ensures
        forall|x: T| #[trigger] s.push(y).contains(x) <==> s.contains(x) || x == y,
{
    assert forall|x: T| #[trigger] s.push(y).contains(x) <==> s.contains(x) || x == y by {
        if s.contains(x) {
            let j = choose|j: int| 0 <= j < s.len() && s[j] == x;
            assert(s.push(y)[j] == x);
        }
        if x == y {
            assert(s.push(y)[s.len() as int] == x);
        }
    }
}

} // verus!
