//! Keyboard state: which keys are held, and which went down or up during
//! the current frame.
use vstd::prelude::*;

verus! {

/// A set of key names, kept as a vector without repeats.
#[derive(Clone)]
pub struct KeySet {
    keys: Vec<String>,
}

/// The names of a vector of keys, as character sequences.
pub open spec fn key_names(keys: Seq<String>) -> Seq<Seq<char>> {
    keys.map_values(|k: String| k@)
}

impl View for KeySet {
    type V = Set<Seq<char>>;

    closed spec fn view(&self) -> Set<Seq<char>> {
        key_names(self.keys@).to_set()
    }
}

impl KeySet {
    pub closed spec fn wf(&self) -> bool {
        key_names(self.keys@).no_duplicates()
    }

    pub fn new() -> (s: Self)
        ensures
            s.wf(),
            s@ == Set::<Seq<char>>::empty(),
    {
        let s = KeySet { keys: Vec::new() };
        assert(key_names(s.keys@) =~= Seq::<Seq<char>>::empty());
        assert(s@ =~= Set::<Seq<char>>::empty());
        s
    }

    /// The position of `key` in the vector, if present.
    fn position(&self, key: &String) -> (r: Option<usize>)
        ensures
            match r {
                Some(i) => i < self.keys@.len() && self.keys@[i as int]@ == key@,
                None => !self@.contains(key@),
            },
    {
        let mut i: usize = 0;
        while i < self.keys.len()
            invariant
                i <= self.keys@.len(),
                forall|j: int| 0 <= j < i ==> self.keys@[j]@ != key@,
            decreases self.keys@.len() - i,
        {
            if self.keys[i] == *key {
                return Some(i);
            }
            i = i + 1;
        }
        proof {
            if self@.contains(key@) {
                let j = choose|j: int| 0 <= j < key_names(self.keys@).len() && key_names(self.keys@)[j] == key@;
                assert(self.keys@[j]@ == key@);
            }
        }
        None
    }

    pub fn contains(&self, key: &str) -> (r: bool)
        ensures
            r == self@.contains(key@),
    {
        let owned = key.to_owned();
        match self.position(&owned) {
            Some(i) => {
                assert(key_names(self.keys@)[i as int] == key@);
                true
            },
            None => false,
        }
    }

    pub fn insert(&mut self, key: String)
        requires
            old(self).wf(),
        ensures
            final(self).wf(),
            final(self)@ == old(self)@.insert(key@),
    {
        match self.position(&key) {
            Some(i) => {
                proof {
                    assert(key_names(self.keys@)[i as int] == key@);
                    assert(key_names(self.keys@).contains(key@));
                    assert(self@.contains(key@));
                    assert(self@.insert(key@) =~= self@);
                }
            },
            None => {
                let ghost old_names = key_names(self.keys@);
                self.keys.push(key);
                proof {
                    assert(key_names(self.keys@) =~= old_names.push(key@));
                    Seq::<Seq<char>>::lemma_to_set_insert_commutes(old_names, key@);
                    assert(old_names.push(key@) =~= old_names + seq![key@]);
                    assert(key_names(self.keys@) == old_names + seq![key@]);
                    assert(self@ =~= old_names.to_set().insert(key@));
                    assert(key_names(self.keys@).no_duplicates()) by {
                        assert forall|a: int, b: int|
                            0 <= a < key_names(self.keys@).len() && 0 <= b < key_names(self.keys@).len()
                                && a != b implies key_names(self.keys@)[a] != key_names(self.keys@)[b] by {
                            if a == old_names.len() {
                                assert(old_names.contains(old_names[b]));
                            } else if b == old_names.len() {
                                assert(old_names.contains(old_names[a]));
                            }
                        }
                    }
                }
            },
        }
    }

    pub fn remove(&mut self, key: &String)
        requires
            old(self).wf(),
        ensures
            final(self).wf(),
            final(self)@ == old(self)@.remove(key@),
    {
        match self.position(key) {
            Some(i) => {
                let ghost old_names = key_names(self.keys@);
                self.keys.swap_remove(i);
                proof {
                    let n = key_names(self.keys@);
                    let last = old_names.len() - 1;
                    assert(n =~= old_names.update(i as int, old_names[last]).drop_last());
                    assert(n.no_duplicates()) by {
                        assert forall|a: int, b: int| 0 <= a < n.len() && 0 <= b < n.len() && a != b implies n[a]
                            != n[b] by {
                            let oa = if a == i { last } else { a };
                            let ob = if b == i { last } else { b };
                            assert(n[a] == old_names[oa]);
                            assert(n[b] == old_names[ob]);
                        }
                    }
                    assert forall|x: Seq<char>| n.to_set().contains(x) implies old_names.to_set().remove(
                        key@,
                    ).contains(x) by {
                        let a = choose|a: int| 0 <= a < n.len() && n[a] == x;
                        let oa = if a == i { last } else { a };
                        assert(old_names[oa] == x);
                        assert(oa != i);
                        assert(old_names[i as int] == key@);
                        assert(old_names[oa] != old_names[i as int]);
                        assert(old_names.contains(x));
                    }
                    assert forall|x: Seq<char>| old_names.to_set().remove(key@).contains(x) implies n.to_set().contains(
                        x,
                    ) by {
                        let a = choose|a: int| 0 <= a < old_names.len() && old_names[a] == x;
                        assert(a != i);
                        if a == last {
                            assert(n[i as int] == x);
                        } else {
                            assert(n[a] == x);
                        }
                        assert(n.contains(x));
                    }
                    assert(n.to_set() =~= old_names.to_set().remove(key@));
                }
            },
            None => {
                proof {
                    assert(self@.remove(key@) =~= self@);
                }
            },
        }
    }

    pub fn clear(&mut self)
        ensures
            final(self).wf(),
            final(self)@ == Set::<Seq<char>>::empty(),
    {
        self.keys.clear();
        assert(key_names(self.keys@) =~= Seq::<Seq<char>>::empty());
        assert(self@ =~= Set::<Seq<char>>::empty());
    }
}

/// Abstract keyboard state.
pub struct KeyboardView {
    pub pressed: Set<Seq<char>>,
    pub just_pressed: Set<Seq<char>>,
    pub just_released: Set<Seq<char>>,
}

impl KeyboardView {
    /// Pressing a key holds it; it counts as just pressed when it was not
    /// already held.
    pub open spec fn press(self, key: Seq<char>) -> KeyboardView {
        KeyboardView {
            pressed: self.pressed.insert(key),
            just_pressed: if self.pressed.contains(key) {
                self.just_pressed
            } else {
                self.just_pressed.insert(key)
            },
            just_released: self.just_released,
        }
    }

    /// Releasing a key lets it go and marks it just released.
    pub open spec fn release(self, key: Seq<char>) -> KeyboardView {
        KeyboardView {
            pressed: self.pressed.remove(key),
            just_pressed: self.just_pressed,
            just_released: self.just_released.insert(key),
        }
    }

    /// The end of a frame forgets the per-frame events.
    pub open spec fn clear_frame_state(self) -> KeyboardView {
        KeyboardView {
            pressed: self.pressed,
            just_pressed: Set::empty(),
            just_released: Set::empty(),
        }
    }
}

/// Keyboard input state.
#[derive(Clone)]
pub struct Keyboard {
    pressed: KeySet,
    just_pressed: KeySet,
    just_released: KeySet,
}

impl View for Keyboard {
    type V = KeyboardView;

    closed spec fn view(&self) -> KeyboardView {
        KeyboardView {
            pressed: self.pressed@,
            just_pressed: self.just_pressed@,
            just_released: self.just_released@,
        }
    }
}

impl Keyboard {
    pub closed spec fn wf(&self) -> bool {
        self.pressed.wf() && self.just_pressed.wf() && self.just_released.wf()
    }

    pub fn new() -> (k: Self)
        ensures
            k.wf(),
            k@ == (KeyboardView {
                pressed: Set::empty(),
                just_pressed: Set::empty(),
                just_released: Set::empty(),
            }),
    {
        Self { pressed: KeySet::new(), just_pressed: KeySet::new(), just_released: KeySet::new() }
    }

    pub fn press(&mut self, key: String)
        requires
            old(self).wf(),
        ensures
            final(self).wf(),
            final(self)@ == old(self)@.press(key@),
    {
        if !self.pressed.contains(key.as_str()) {
            self.just_pressed.insert(key.clone());
        }
        self.pressed.insert(key);
    }

    pub fn release(&mut self, key: String)
        requires
            old(self).wf(),
        ensures
            final(self).wf(),
            final(self)@ == old(self)@.release(key@),
    {
        self.pressed.remove(&key);
        self.just_released.insert(key);
    }

    pub fn is_pressed(&self, key: &str) -> (r: bool)
        ensures
            r == self@.pressed.contains(key@),
    {
        self.pressed.contains(key)
    }

    pub fn is_just_pressed(&self, key: &str) -> (r: bool)
        ensures
            r == self@.just_pressed.contains(key@),
    {
        self.just_pressed.contains(key)
    }

    pub fn is_just_released(&self, key: &str) -> (r: bool)
        ensures
            r == self@.just_released.contains(key@),
    {
        self.just_released.contains(key)
    }

    /// Call this at the end of each frame to clear just_pressed/just_released.
    pub fn clear_frame_state(&mut self)
        requires
            old(self).wf(),
        ensures
            final(self).wf(),
            final(self)@ == old(self)@.clear_frame_state(),
    {
        self.just_pressed.clear();
        self.just_released.clear();
    }
}

/// A key that is pressed is held; a key that is released is not held and
/// counts as just released; pressing a key that was up makes it just pressed.
pub proof fn law_keyboard_press_release(k: KeyboardView, key: Seq<char>, other: Seq<char>)
    ensures
        k.press(key).pressed.contains(key),
        !k.pressed.contains(key) ==> k.press(key).just_pressed.contains(key),
        !k.release(key).pressed.contains(key),
        k.release(key).just_released.contains(key),
        other != key ==> (k.press(key).pressed.contains(other) == k.pressed.contains(other)),
        other != key ==> (k.release(key).pressed.contains(other) == k.pressed.contains(other)),
{
}

/// The end of a frame keeps the held keys and forgets every per-frame event;
/// holding a key down across frames does not make it just pressed again.
pub proof fn law_keyboard_frames(k: KeyboardView, key: Seq<char>)
    ensures
        k.clear_frame_state().pressed == k.pressed,
        !k.clear_frame_state().just_pressed.contains(key),
        !k.clear_frame_state().just_released.contains(key),
        !k.press(key).clear_frame_state().press(key).just_pressed.contains(key),
{
}

// Common key codes
pub const KEY_W: &'static str = "KeyW";
pub const KEY_A: &'static str = "KeyA";
pub const KEY_S: &'static str = "KeyS";
pub const KEY_D: &'static str = "KeyD";
pub const KEY_E: &'static str = "KeyE";
pub const KEY_SPACE: &'static str = "Space";
pub const KEY_SHIFT: &'static str = "ShiftLeft";
pub const KEY_CTRL: &'static str = "ControlLeft";
pub const ARROW_UP: &'static str = "ArrowUp";
pub const ARROW_DOWN: &'static str = "ArrowDown";
pub const ARROW_LEFT: &'static str = "ArrowLeft";
pub const ARROW_RIGHT: &'static str = "ArrowRight";

/// Pressing a key touches only that key's held and just-pressed state:
/// every key released earlier in the frame stays just released, and no
/// other key changes. Releasing a key touches only that key: the keys
/// pressed earlier in the frame stay just pressed.
pub proof fn law_keyboard_events_are_independent(k: KeyboardView, key: Seq<char>, other: Seq<char>)
    ensures
        k.press(key).just_released == k.just_released,
        k.release(key).just_pressed == k.just_pressed,
        other != key ==> k.press(key).just_pressed.contains(other) == k.just_pressed.contains(other),
        other != key ==> k.release(key).just_released.contains(other) == k.just_released.contains(other),
        k.just_pressed.contains(key) ==> k.press(key).just_pressed.contains(key),
        k.press(key).release(key).just_released.contains(key),
        !k.press(key).release(key).pressed.contains(key),
{
}

} // verus!
