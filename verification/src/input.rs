use vstd::prelude::*;

use crate::text::{distinct_names, find_name, lemma_name_position_unique, lemma_push_new_name, name_position, string_views};

verus! {

/// The set of names held by a list of distinct strings.
pub open spec fn name_set(strings: Seq<String>) -> Set<Seq<char>> {
    string_views(strings).to_set()
}

proof fn lemma_name_set_contains(strings: Seq<String>, name: Seq<char>)
    ensures
        name_set(strings).contains(name) == (name_position(string_views(strings), name) is Some),
{
    let names = string_views(strings);
    if name_set(strings).contains(name) {
        assert(names.contains(name));
        let i = choose|i: int| 0 <= i < names.len() && names[i] == name;
        assert(0 <= i < names.len() && names[i] == name);
    } else {
        if exists|i: int| 0 <= i < names.len() && names[i] == name {
            let i = choose|i: int| 0 <= i < names.len() && names[i] == name;
            assert(names.contains(name));
        }
    }
}

/// Adds `action` to a list of distinct names unless it is already there.
fn add_name(v: &mut Vec<String>, action: &str)
    requires
        distinct_names(string_views(old(v)@)),
    ensures
        distinct_names(string_views(final(v)@)),
        name_set(final(v)@) == name_set(old(v)@).insert(action@),
{
    let ghost before = v@;
    if find_name(v, action).is_none() {
        v.push(action.to_string());
        proof {
            assert(string_views(v@) =~= string_views(before).push(action@));
            lemma_push_new_name(string_views(before), action@);
            assert forall|x: Seq<char>| name_set(v@).contains(x) == name_set(before).insert(action@).contains(x) by {
                lemma_name_set_contains(v@, x);
                lemma_name_set_contains(before, x);
            }
            assert(name_set(v@) =~= name_set(before).insert(action@));
        }
    } else {
        proof {
            lemma_name_set_contains(before, action@);
            assert(name_set(v@) =~= name_set(before).insert(action@));
        }
    }
}

/// Removes `action` from a list of distinct names if it is there.
fn remove_name(v: &mut Vec<String>, action: &str)
    requires
        distinct_names(string_views(old(v)@)),
    ensures
        distinct_names(string_views(final(v)@)),
        name_set(final(v)@) == name_set(old(v)@).remove(action@),
{
    let ghost before = v@;
    let ghost names = string_views(before);
    match find_name(v, action) {
        Some(i) => {
            v.remove(i);
            proof {
                let after = string_views(v@);
                assert(after =~= names.remove(i as int));
                assert forall|a: int, b: int| 0 <= a < b < after.len() implies after[a] != after[b] by {
                    let a2 = if a < i { a } else { a + 1 };
                    let b2 = if b < i { b } else { b + 1 };
                    assert(after[a] == names[a2] && after[b] == names[b2]);
                }
                assert forall|x: Seq<char>| name_set(v@).contains(x) == name_set(before).remove(action@).contains(x) by {
                    lemma_name_set_contains(v@, x);
                    lemma_name_set_contains(before, x);
                    lemma_name_position_unique(names, i as int);
                    if name_position(after, x) is Some {
                        let k = name_position(after, x).unwrap();
                        let k2 = if k < i { k } else { k + 1 };
                        assert(names[k2] == x);
                        lemma_name_position_unique(names, k2);
                    }
                    if x != action@ && name_position(names, x) is Some {
                        let k = name_position(names, x).unwrap();
                        assert(k != i);
                        let k2 = if k < i { k } else { k - 1 };
                        assert(after[k2] == x);
                    }
                }
                assert(name_set(v@) =~= name_set(before).remove(action@));
            }
        },
        None => {
            proof {
                lemma_name_set_contains(before, action@);
                assert(name_set(v@) =~= name_set(before).remove(action@));
            }
        },
    }
}

/// A snapshot of input state captured once per game tick before the frame step.
///
/// Platform-agnostic: action names are arbitrary strings matching the host
/// platform's input-action map (e.g. Godot project actions like `"move_left"`).
#[derive(Clone, Debug)]
pub struct InputSnapshot {
    /// Actions whose button/key is held down this frame.
    pressed: Vec<String>,
    /// Actions that transitioned from released → pressed this frame.
    just_pressed: Vec<String>,
    /// Actions that transitioned from pressed → released this frame.
    just_released: Vec<String>,
}

impl InputSnapshot {
    /// Actions held down.
    pub closed spec fn pressed_set(&self) -> Set<Seq<char>> {
        name_set(self.pressed@)
    }

    /// Actions newly pressed this frame.
    pub closed spec fn just_pressed_set(&self) -> Set<Seq<char>> {
        name_set(self.just_pressed@)
    }

    /// Actions released this frame.
    pub closed spec fn just_released_set(&self) -> Set<Seq<char>> {
        name_set(self.just_released@)
    }

    /// Each of the three lists holds an action at most once.
    pub closed spec fn wf(&self) -> bool {
        &&& distinct_names(string_views(self.pressed@))
        &&& distinct_names(string_views(self.just_pressed@))
        &&& distinct_names(string_views(self.just_released@))
    }

    pub fn new() -> (r: Self)
        ensures
            r.wf(),
            r.pressed_set() == Set::<Seq<char>>::empty(),
            r.just_pressed_set() == Set::<Seq<char>>::empty(),
            r.just_released_set() == Set::<Seq<char>>::empty(),
    {
        let r = InputSnapshot { pressed: Vec::new(), just_pressed: Vec::new(), just_released: Vec::new() };
        proof {
            assert(string_views(r.pressed@) =~= Seq::<Seq<char>>::empty());
            assert(r.pressed_set() =~= Set::<Seq<char>>::empty());
        }
        r
    }

    // ── Setters (called by host platform before step) ─────────────────────

    /// Marks `action` as held / not held this frame.
    pub fn set_pressed(&mut self, action: &str, is_pressed: bool)
        requires
            old(self).wf(),
        ensures
            final(self).wf(),
            final(self).pressed_set() == if is_pressed {
                old(self).pressed_set().insert(action@)
            } else {
                old(self).pressed_set().remove(action@)
            },
            final(self).just_pressed_set() == old(self).just_pressed_set(),
            final(self).just_released_set() == old(self).just_released_set(),
    {
        if is_pressed {
            add_name(&mut self.pressed, action);
        } else {
            remove_name(&mut self.pressed, action);
        }
    }

    /// Marks `action` as having been newly pressed this frame.
    pub fn set_just_pressed(&mut self, action: &str, value: bool)
        requires
            old(self).wf(),
        ensures
            final(self).wf(),
            final(self).just_pressed_set() == if value {
                old(self).just_pressed_set().insert(action@)
            } else {
                old(self).just_pressed_set().remove(action@)
            },
            final(self).pressed_set() == old(self).pressed_set(),
            final(self).just_released_set() == old(self).just_released_set(),
    {
        if value {
            add_name(&mut self.just_pressed, action);
        } else {
            remove_name(&mut self.just_pressed, action);
        }
    }

    /// Marks `action` as having been released this frame.
    pub fn set_just_released(&mut self, action: &str, value: bool)
        requires
            old(self).wf(),
        ensures
            final(self).wf(),
            final(self).just_released_set() == if value {
                old(self).just_released_set().insert(action@)
            } else {
                old(self).just_released_set().remove(action@)
            },
            final(self).pressed_set() == old(self).pressed_set(),
            final(self).just_pressed_set() == old(self).just_pressed_set(),
    {
        if value {
            add_name(&mut self.just_released, action);
        } else {
            remove_name(&mut self.just_released, action);
        }
    }

    // ── Queries (called by scripts) ───────────────────────────────────────

    /// Returns `true` if the action is currently held down.
    pub fn is_pressed(&self, action: &str) -> (r: bool)
        requires
            self.wf(),
        ensures
            r == self.pressed_set().contains(action@),
    {
        proof {
            lemma_name_set_contains(self.pressed@, action@);
        }
        find_name(&self.pressed, action).is_some()
    }

    /// Returns `true` if the action was pressed for the first time this frame.
    pub fn is_just_pressed(&self, action: &str) -> (r: bool)
        requires
            self.wf(),
        ensures
            r == self.just_pressed_set().contains(action@),
    {
        proof {
            lemma_name_set_contains(self.just_pressed@, action@);
        }
        find_name(&self.just_pressed, action).is_some()
    }

    /// Returns `true` if the action was released this frame.
    pub fn is_just_released(&self, action: &str) -> (r: bool)
        requires
            self.wf(),
        ensures
            r == self.just_released_set().contains(action@),
    {
        proof {
            lemma_name_set_contains(self.just_released@, action@);
        }
        find_name(&self.just_released, action).is_some()
    }

    /// Clears `just_pressed` and `just_released` sets.
    /// Called at the end of each frame so transient state
    /// does not bleed into the next tick.
    pub fn clear_transients(&mut self)
        requires
            old(self).wf(),
        ensures
            final(self).wf(),
            final(self).pressed_set() == old(self).pressed_set(),
            final(self).just_pressed_set() == Set::<Seq<char>>::empty(),
            final(self).just_released_set() == Set::<Seq<char>>::empty(),
    {
        self.just_pressed.clear();
        self.just_released.clear();
        proof {
            assert(string_views(self.just_pressed@) =~= Seq::<Seq<char>>::empty());
            assert(string_views(self.just_released@) =~= Seq::<Seq<char>>::empty());
            assert(self.just_pressed_set() =~= Set::<Seq<char>>::empty());
            assert(self.just_released_set() =~= Set::<Seq<char>>::empty());
        }
    }
}

impl Default for InputSnapshot {
    fn default() -> (r: Self)
        ensures
            r.wf(),
            r.pressed_set() == Set::<Seq<char>>::empty(),
            r.just_pressed_set() == Set::<Seq<char>>::empty(),
            r.just_released_set() == Set::<Seq<char>>::empty(),
    {
        Self::new()
    }
}

} // verus!
