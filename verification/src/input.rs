//! The state of the keyboard and mouse buttons from one frame to the next.

use vstd::prelude::*;
use std::collections::HashMap;
use vstd::std_specs::hash::spec_keys_iter;
use vstd::std_specs::iter::IteratorSpec;

verus! {

broadcast use vstd::std_specs::hash::group_hash_axioms;

/// Where a button is in its press: pressed this frame, held down since an earlier frame, or
/// let go this frame.
#[derive(Clone, Copy, PartialEq, Eq, Structural, Hash, Debug)]
pub enum ButtonState {
    Pressed,
    Released,
    Held,
}

/// What the player has selected.
pub struct InputState {
    pub selected_agent: Option<u8>,
}

/// The buttons seen down lately, keys by their key code. A key is forgotten one frame after
/// it is released.
pub struct InputBuffer {
    pub button_states: HashMap<u32, ButtonState>,
    pub left_mouse_state: ButtonState,
    pub right_mouse_state: ButtonState,
}

/// `k` occurs at least twice in `s`.
pub open spec fn occurs_twice(s: Seq<u32>, k: u32) -> bool {
    exists|i: int, j: int| 0 <= i < j < s.len() && s[i] == k && s[j] == k
}

/// The key states after a frame in which the keys `down` are down, from the states `m`: a
/// key down is held when it was known or is listed twice, else pressed; a known key that is
/// not down is released, and forgotten when it was released already.
pub open spec fn next_key_states(m: Map<u32, ButtonState>, down: Seq<u32>) -> Map<
    u32,
    ButtonState,
> {
    Map::new(
        |k: u32| down.contains(k) || (m.contains_key(k) && m[k] != ButtonState::Released),
        |k: u32|
            if down.contains(k) {
                if m.contains_key(k) || occurs_twice(down, k) {
                    ButtonState::Held
                } else {
                    ButtonState::Pressed
                }
            } else {
                ButtonState::Released
            },
    )
}

/// The state of a mouse button after a frame in which it is `down` or not: a button
/// pressed last frame is held, any other button down is pressed, and a button up is
/// released.
pub open spec fn next_mouse_state(s: ButtonState, down: bool) -> ButtonState {
    if down {
        if s == ButtonState::Pressed {
            ButtonState::Held
        } else {
            ButtonState::Pressed
        }
    } else {
        ButtonState::Released
    }
}

impl InputState {
    pub fn new() -> (s: InputState)
        ensures
            s.selected_agent is None,
    {
        InputState { selected_agent: None }
    }
}

fn contains_code(v: &Vec<u32>, k: u32) -> (b: bool)
    ensures
        b == v@.contains(k),
{
    let mut i: usize = 0;
    while i < v.len()
        invariant
            i <= v@.len(),
            forall|j: int| 0 <= j < i ==> v@[j] != k,
        decreases v@.len() - i,
    {
        if v[i] == k {
            assert(v@[i as int] == k);
            return true;
        }
        i = i + 1;
    }
    false
}

impl InputBuffer {
    /// No button known; both mouse buttons released.
    pub fn new() -> (b: InputBuffer)
        ensures
            b.button_states@ == Map::<u32, ButtonState>::empty(),
            b.left_mouse_state == ButtonState::Released,
            b.right_mouse_state == ButtonState::Released,
    {
        InputBuffer {
            button_states: HashMap::new(),
            left_mouse_state: ButtonState::Released,
            right_mouse_state: ButtonState::Released,
        }
    }

    /// The key codes of the known keys.
    fn known_keys(&self) -> (r: Vec<u32>)
        ensures
            r@.to_set() == self.button_states@.dom(),
            r@.no_duplicates(),
    {
        let mut r: Vec<u32> = Vec::new();
        let ghost ks = spec_keys_iter(&self.button_states).remaining().unref();
        for k in it: self.button_states.keys()
            invariant
                it.seq().unref() == ks,
                r@.len() == it.index(),
                forall|i: int| 0 <= i < r@.len() ==> r@[i] == *it.seq()[i],
                ks.to_set() == self.button_states@.dom(),
                ks.no_duplicates(),
            ensures
                r@ =~= ks,
        {
            r.push(*k);
        }
        r
    }
}

/// The key states `m` after the keys not in `down` are let go: a released key is
/// forgotten, any other becomes released.
pub open spec fn released_states(m: Map<u32, ButtonState>, down: Seq<u32>) -> Map<u32, ButtonState> {
    Map::new(
        |k: u32| m.contains_key(k) && (down.contains(k) || m[k] != ButtonState::Released),
        |k: u32|
            if down.contains(k) {
                m[k]
            } else {
                ButtonState::Released
            },
    )
}

/// The key states `m` after the keys `down` are seen down, one after the other.
pub open spec fn pressed_states(m: Map<u32, ButtonState>, down: Seq<u32>) -> Map<u32, ButtonState> {
    Map::new(
        |k: u32| m.contains_key(k) || down.contains(k),
        |k: u32|
            if down.contains(k) {
                if m.contains_key(k) || occurs_twice(down, k) {
                    ButtonState::Held
                } else {
                    ButtonState::Pressed
                }
            } else {
                m[k]
            },
    )
}

proof fn lemma_occurs_twice_push(s: Seq<u32>, x: u32, k: u32)
    ensures
        occurs_twice(s.push(x), k) == (occurs_twice(s, k) || (k == x && s.contains(k))),
        s.push(x).contains(k) == (s.contains(k) || k == x),
{
    let t = s.push(x);
    if occurs_twice(t, k) {
        let (i, j) = choose|i: int, j: int| 0 <= i < j < t.len() && t[i] == k && t[j] == k;
        if j < s.len() {
            assert(s[i] == k && s[j] == k);
        } else {
            assert(s[i] == k);
        }
    }
    if occurs_twice(s, k) {
        let (i, j) = choose|i: int, j: int| 0 <= i < j < s.len() && s[i] == k && s[j] == k;
        assert(t[i] == k && t[j] == k);
    }
    if k == x && s.contains(k) {
        let i = choose|i: int| 0 <= i < s.len() && s[i] == k;
        assert(t[i] == k && t[s.len() as int] == k);
    }
    if s.push(x).contains(k) {
        let i = choose|i: int| 0 <= i < t.len() && t[i] == k;
        if i < s.len() {
            assert(s[i] == k);
        }
    }
    if s.contains(k) {
        let i = choose|i: int| 0 <= i < s.len() && s[i] == k;
        assert(t[i] == k);
    }
    if k == x {
        assert(t[s.len() as int] == k);
    }
}

impl InputBuffer {
    /// Lets go of the known keys that are not in `keys_down`.
    fn release_keys(&mut self, keys_down: &Vec<u32>)
        ensures
            final(self).button_states@ == released_states(old(self).button_states@, keys_down@),
            final(self).left_mouse_state == old(self).left_mouse_state,
            final(self).right_mouse_state == old(self).right_mouse_state,
    {
        let existing = self.known_keys();
        let ghost m0 = self.button_states@;
        let ghost down = keys_down@;
        let mut i: usize = 0;
        while i < existing.len()
            invariant
                down == keys_down@,
                existing@.to_set() == m0.dom(),
                existing@.no_duplicates(),
                i <= existing@.len(),
                self.left_mouse_state == old(self).left_mouse_state,
                self.right_mouse_state == old(self).right_mouse_state,
                m0 == old(self).button_states@,
                forall|k: u32|
                    #[trigger] self.button_states@.contains_key(k) == (m0.contains_key(k) && (
                    !existing@.take(i as int).contains(k) || down.contains(k) || m0[k]
                        != ButtonState::Released)),
                forall|k: u32|
                    #[trigger] self.button_states@.contains_key(k) ==> self.button_states@[k] == if existing@.take(
                        i as int,
                    ).contains(k) && !down.contains(k) {
                        ButtonState::Released
                    } else {
                        m0[k]
                    },
            decreases existing@.len() - i,
        {
            let key = existing[i];
            proof {
                assert(existing@.take(i + 1) =~= existing@.take(i as int).push(key));
                assert(!existing@.take(i as int).contains(key)) by {
                    if existing@.take(i as int).contains(key) {
                        let j = choose|j: int| 0 <= j < i && existing@.take(i as int)[j] == key;
                        assert(existing@[j] == existing@[i as int]);
                    }
                }
                assert(existing@.to_set().contains(key)) by {
                    assert(existing@[i as int] == key);
                }
                assert forall|k: u32| existing@.take(i + 1).contains(k) == (existing@.take(i as int).contains(k) || k == key) by {
                    lemma_occurs_twice_push(existing@.take(i as int), key, k);
                }
            }
            if !contains_code(keys_down, key) {
                let state = match self.button_states.get(&key) {
                    Some(s) => Some(*s),
                    None => None,
                };
                match state {
                    Some(st) => {
                        if st == ButtonState::Released {
                            self.button_states.remove(&key);
                        } else {
                            self.button_states.insert(key, ButtonState::Released);
                        }
                    },
                    None => {},
                }
            }
            i = i + 1;
        }
        proof {
            assert(existing@.take(existing@.len() as int) =~= existing@);
            assert forall|k: u32| existing@.contains(k) == m0.contains_key(k) by {
                assert(existing@.to_set().contains(k) == existing@.contains(k));
            }
            assert(self.button_states@ =~= released_states(m0, down));
        }
    }

    /// Marks the keys in `keys_down` as pressed, or held when they were known already.
    fn press_keys(&mut self, keys_down: &Vec<u32>)
        ensures
            final(self).button_states@ == pressed_states(old(self).button_states@, keys_down@),
            final(self).left_mouse_state == old(self).left_mouse_state,
            final(self).right_mouse_state == old(self).right_mouse_state,
    {
        let ghost m1 = self.button_states@;
        let mut j: usize = 0;
        while j < keys_down.len()
            invariant
                j <= keys_down@.len(),
                self.left_mouse_state == old(self).left_mouse_state,
                self.right_mouse_state == old(self).right_mouse_state,
                m1 == old(self).button_states@,
                self.button_states@ == pressed_states(m1, keys_down@.take(j as int)),
            decreases keys_down@.len() - j,
        {
            let key = keys_down[j];
            let ghost prefix = keys_down@.take(j as int);
            proof {
                assert(keys_down@.take(j + 1) =~= prefix.push(key));
                assert forall|k: u32| #![auto] occurs_twice(prefix.push(key), k) == (occurs_twice(prefix, k) || (k == key && prefix.contains(k))) && prefix.push(key).contains(k) == (prefix.contains(k) || k == key) by {
                    lemma_occurs_twice_push(prefix, key, k);
                }
            }
            if self.button_states.contains_key(&key) {
                self.button_states.insert(key, ButtonState::Held);
            } else {
                self.button_states.insert(key, ButtonState::Pressed);
            }
            proof {
                assert(self.button_states@ =~= pressed_states(m1, keys_down@.take(j + 1)));
            }
            j = j + 1;
        }
        proof {
            assert(keys_down@.take(keys_down@.len() as int) =~= keys_down@);
        }
    }

    /// Takes in the buttons down this frame (see `next_key_states` and `next_mouse_state`);
    /// the right mouse button's state is left as it is.
    pub fn update_button_states(
        &mut self,
        keys_down: Vec<u32>,
        left_mouse_down: bool,
        right_mouse_down: bool,
    )
        ensures
            final(self).button_states@ == next_key_states(old(self).button_states@, keys_down@),
            final(self).left_mouse_state == next_mouse_state(
                old(self).left_mouse_state,
                left_mouse_down,
            ),
            final(self).right_mouse_state == old(self).right_mouse_state,
    {
        let ghost m0 = self.button_states@;
        self.release_keys(&keys_down);
        self.press_keys(&keys_down);
        proof {
            assert(self.button_states@ =~= next_key_states(m0, keys_down@));
        }
        if left_mouse_down {
            if self.left_mouse_state == ButtonState::Pressed {
                self.left_mouse_state = ButtonState::Held;
            } else {
                self.left_mouse_state = ButtonState::Pressed;
            }
        } else {
            self.left_mouse_state = ButtonState::Released;
        }
    }

    pub fn left_mouse_pressed(&self) -> (b: bool)
        ensures
            b == (self.left_mouse_state == ButtonState::Pressed),
    {
        match self.left_mouse_state {
            ButtonState::Pressed => true,
            _ => false,
        }
    }

    pub fn right_mouse_pressed(&self) -> (b: bool)
        ensures
            b == (self.right_mouse_state == ButtonState::Pressed),
    {
        match self.right_mouse_state {
            ButtonState::Pressed => true,
            _ => false,
        }
    }

    fn state_of(&self, key: u32) -> (r: Option<ButtonState>)
        ensures
            r == if self.button_states@.contains_key(key) {
                Some(self.button_states@[key])
            } else {
                None
            },
    {
        match self.button_states.get(&key) {
            Some(s) => Some(*s),
            None => None,
        }
    }

    pub fn button_pressed(&self, key: u32) -> (b: bool)
        ensures
            b == (self.button_states@.contains_key(key) && self.button_states@[key]
                == ButtonState::Pressed),
    {
        match self.state_of(key) {
            Some(ButtonState::Pressed) => true,
            _ => false,
        }
    }

    pub fn button_pressed_or_held(&self, key: u32) -> (b: bool)
        ensures
            b == (self.button_states@.contains_key(key) && (self.button_states@[key]
                == ButtonState::Pressed || self.button_states@[key] == ButtonState::Held)),
    {
        match self.state_of(key) {
            Some(ButtonState::Pressed) => true,
            Some(ButtonState::Held) => true,
            _ => false,
        }
    }

    pub fn button_released(&self, key: u32) -> (b: bool)
        ensures
            b == (self.button_states@.contains_key(key) && self.button_states@[key]
                == ButtonState::Released),
    {
        match self.state_of(key) {
            Some(ButtonState::Released) => true,
            _ => false,
        }
    }

    pub fn button_held(&self, key: u32) -> (b: bool)
        ensures
            b == (self.button_states@.contains_key(key) && self.button_states@[key]
                == ButtonState::Held),
    {
        match self.state_of(key) {
            Some(ButtonState::Held) => true,
            _ => false,
        }
    }
}

} // verus!
