//! The input baker: raw key transitions arrive between frames, and each
//! frame sees one stable snapshot of them next to the snapshot before it.

use std::collections::HashSet;
use vstd::prelude::*;

verus! {

broadcast use vstd::std_specs::hash::group_hash_axioms;

/// A key of the keyboard, by the number that the platform gives it.
pub type KeyCode = u32;

/// A pointer position and the keys that are held down.
pub struct RawInputData {
    /// Horizontal pointer position, in physical pixels.
    pub x: i32,
    /// Vertical pointer position, in physical pixels.
    pub y: i32,
    pub pressing: HashSet<KeyCode>,
}

/// What a `RawInputData` holds.
#[verifier::ext_equal]
pub struct RawInputView {
    pub x: int,
    pub y: int,
    pub pressing: Set<KeyCode>,
}

impl View for RawInputData {
    type V = RawInputView;

    open spec fn view(&self) -> RawInputView {
        RawInputView { x: self.x as int, y: self.y as int, pressing: self.pressing@ }
    }
}

/// The snapshots of the baker: what has arrived since the last frame, the
/// current frame and the one before.
pub struct BakedInputs {
    pub cur_temp_input: RawInputData,
    pub last_frame_input: RawInputData,
    pub cur_frame_input: RawInputData,
    /// Accumulates like `cur_temp_input`, against `last_temp_game_input`.
    pub cur_temp_game_input: RawInputData,
    pub last_temp_game_input: RawInputData,
    /// Whether the current frame holds a key that the last frame did not.
    pub pressed_any_cur_frame: bool,
}

/// What a `BakedInputs` holds.
#[verifier::ext_equal]
pub struct BakedInputsView {
    pub cur_temp_input: RawInputView,
    pub last_frame_input: RawInputView,
    pub cur_frame_input: RawInputView,
    pub cur_temp_game_input: RawInputView,
    pub last_temp_game_input: RawInputView,
    pub pressed_any_cur_frame: bool,
}

impl View for BakedInputs {
    type V = BakedInputsView;

    open spec fn view(&self) -> BakedInputsView {
        BakedInputsView {
            cur_temp_input: self.cur_temp_input@,
            last_frame_input: self.last_frame_input@,
            cur_frame_input: self.cur_frame_input@,
            cur_temp_game_input: self.cur_temp_game_input@,
            last_temp_game_input: self.last_temp_game_input@,
            pressed_any_cur_frame: self.pressed_any_cur_frame,
        }
    }
}

impl RawInputView {
    /// No key held, the pointer at the origin.
    pub open spec fn empty() -> RawInputView {
        RawInputView { x: 0, y: 0, pressing: Set::empty() }
    }

    /// The keys held after `pressed` went down and `released` came up,
    /// where a release counts only for a key that `held` holds.
    pub open spec fn accumulate(
        self,
        pressed: Set<KeyCode>,
        released: Set<KeyCode>,
        held: Set<KeyCode>,
    ) -> RawInputView {
        RawInputView {
            pressing: self.pressing.union(pressed).difference(released.intersect(held)),
            ..self
        }
    }
}

impl BakedInputsView {
    /// All snapshots empty.
    pub open spec fn empty() -> BakedInputsView {
        BakedInputsView {
            cur_temp_input: RawInputView::empty(),
            last_frame_input: RawInputView::empty(),
            cur_frame_input: RawInputView::empty(),
            cur_temp_game_input: RawInputView::empty(),
            last_temp_game_input: RawInputView::empty(),
            pressed_any_cur_frame: false,
        }
    }

    /// The baker after a batch of key transitions. Every pressed key joins
    /// the accumulators. A released key leaves an accumulator only if the
    /// snapshot it is held against has it: a key that went down and came up
    /// within one batch stays, so that the next frame still sees it.
    pub open spec fn process(self, pressed: Set<KeyCode>, released: Set<KeyCode>) -> BakedInputsView {
        BakedInputsView {
            cur_temp_input: self.cur_temp_input.accumulate(
                pressed,
                released,
                self.cur_frame_input.pressing,
            ),
            cur_temp_game_input: self.cur_temp_game_input.accumulate(
                pressed,
                released,
                self.last_temp_game_input.pressing,
            ),
            ..self
        }
    }

    /// The baker after the frame boundary: the current frame becomes the
    /// last one, and the accumulator, which is kept, becomes the current.
    pub open spec fn swap_frame(self) -> BakedInputsView {
        BakedInputsView {
            last_frame_input: self.cur_frame_input,
            cur_frame_input: self.cur_temp_input,
            pressed_any_cur_frame: !self.cur_temp_input.pressing.subset_of(
                self.cur_frame_input.pressing,
            ),
            ..self
        }
    }

    /// The baker after the pointer moved to `(x, y)`.
    pub open spec fn move_pointer(self, x: int, y: int) -> BakedInputsView {
        BakedInputsView {
            cur_temp_input: RawInputView { x, y, ..self.cur_temp_input },
            cur_temp_game_input: RawInputView { x, y, ..self.cur_temp_game_input },
            ..self
        }
    }

    /// Whether all of `keys` are held in the current frame and at least one
    /// of them was not held in the last.
    pub open spec fn is_pressed(self, keys: Seq<KeyCode>) -> bool {
        &&& exists|i: int|
            0 <= i < keys.len() && !self.last_frame_input.pressing.contains(#[trigger] keys[i])
        &&& forall|i: int|
            0 <= i < keys.len() ==> self.cur_frame_input.pressing.contains(#[trigger] keys[i])
    }
}

/// One key as a player clicks with it: it tells a new press from the
/// repeats that the platform sends while the key stays down.
#[derive(Clone, Copy, Debug, Default, PartialEq, Eq)]
pub struct KeyLatch {
    /// Whether the key was down when it was last heard of.
    pub held: bool,
}

impl KeyLatch {
    /// Takes in that the key is down, or up. Returns whether this is a
    /// click: the key is down and was not down before.
    pub fn feed(&mut self, pressed: bool) -> (clicked: bool)
        ensures
            final(self).held == pressed,
            clicked == (pressed && !old(self).held),
    {
        let clicked = pressed && !self.held;
        self.held = pressed;
        clicked
    }
}

/// The keys among the first `i + 1` of `s` are those among the first `i`,
/// and `s[i]`.
proof fn lemma_take_next(s: Seq<KeyCode>, i: int)
    requires
        0 <= i < s.len(),
    ensures
        s.take(i + 1).to_set() == s.take(i).to_set().insert(s[i]),
{
    let done = s.take(i);
    let next = s.take(i + 1);
    assert forall|k: KeyCode| next.to_set().contains(k) <==> done.to_set().insert(s[i]).contains(
        k,
    ) by {
        if done.contains(k) {
            let j = choose|j: int| 0 <= j < done.len() && done[j] == k;
            assert(next[j] == k);
        }
        if next.contains(k) {
            let j = choose|j: int| 0 <= j < next.len() && next[j] == k;
            if j < i {
                assert(done[j] == k);
            }
        }
        assert(next[i] == s[i]);
    }
    assert(next.to_set() =~= done.to_set().insert(s[i]));
}

/// Adds every key of `keys` to `target`.
fn insert_all(target: &mut HashSet<KeyCode>, keys: &HashSet<KeyCode>)
    ensures
        final(target)@ == old(target)@.union(keys@),
{
    let ghost before = target@;
    for key in it: keys.iter()
        invariant
            it.seq().unref().to_set() == keys@,
            target@ == before.union(it.seq().unref().take(it.index()).to_set()),
            it.index() == it.seq().len() ==> target@ == before.union(keys@),
    {
        proof {
            lemma_take_next(it.seq().unref(), it.index());
        }
        target.insert(*key);
        assert(target@ =~= before.union(it.seq().unref().take(it.index() + 1).to_set()));
        assert(it.index() + 1 == it.seq().len() ==> it.seq().unref().take(it.index() + 1)
            =~= it.seq().unref());
    }
}

/// Removes from `target` every key of `keys` that `held` holds.
fn remove_held(target: &mut HashSet<KeyCode>, keys: &HashSet<KeyCode>, held: &HashSet<KeyCode>)
    ensures
        final(target)@ == old(target)@.difference(keys@.intersect(held@)),
{
    let ghost before = target@;
    for key in it: keys.iter()
        invariant
            it.seq().unref().to_set() == keys@,
            target@ == before.difference(
                it.seq().unref().take(it.index()).to_set().intersect(held@),
            ),
            it.index() == it.seq().len() ==> target@ == before.difference(
                keys@.intersect(held@),
            ),
    {
        proof {
            lemma_take_next(it.seq().unref(), it.index());
        }
        if held.contains(key) {
            target.remove(key);
        }
        assert(target@ =~= before.difference(
            it.seq().unref().take(it.index() + 1).to_set().intersect(held@),
        ));
        assert(it.index() + 1 == it.seq().len() ==> it.seq().unref().take(it.index() + 1)
            =~= it.seq().unref());
    }
}

/// A set with the keys of `keys`.
fn copy_keys(keys: &HashSet<KeyCode>) -> (copy: HashSet<KeyCode>)
    ensures
        copy@ == keys@,
{
    let mut copy: HashSet<KeyCode> = HashSet::new();
    insert_all(&mut copy, keys);
    assert(copy@ =~= keys@);
    copy
}

/// Whether `current` holds a key that `last` does not.
fn holds_new_key(current: &HashSet<KeyCode>, last: &HashSet<KeyCode>) -> (found: bool)
    ensures
        found == !current@.subset_of(last@),
{
    let mut found = false;
    for key in it: current.iter()
        invariant
            it.seq().unref().to_set() == current@,
            found == !it.seq().unref().take(it.index()).to_set().subset_of(last@),
            it.index() == it.seq().len() ==> found == !current@.subset_of(last@),
    {
        proof {
            lemma_take_next(it.seq().unref(), it.index());
        }
        if !last.contains(key) {
            found = true;
        }
        assert(it.index() + 1 == it.seq().len() ==> it.seq().unref().take(it.index() + 1)
            =~= it.seq().unref());
    }
    found
}

impl Clone for RawInputData {
    fn clone(&self) -> (copy: RawInputData)
        ensures
            copy@ == self@,
    {
        RawInputData { x: self.x, y: self.y, pressing: copy_keys(&self.pressing) }
    }

    fn clone_from(&mut self, source: &RawInputData)
        ensures
            final(self)@ == source@,
    {
        self.x = source.x;
        self.y = source.y;
        self.pressing = copy_keys(&source.pressing);
    }
}

impl Default for RawInputData {
    fn default() -> (empty: RawInputData)
        ensures
            empty@ == RawInputView::empty(),
    {
        RawInputData { x: 0, y: 0, pressing: HashSet::new() }
    }
}

impl RawInputData {
    /// No key held, the pointer at the origin.
    pub fn empty() -> (empty: RawInputData)
        ensures
            empty@ == RawInputView::empty(),
    {
        RawInputData { x: 0, y: 0, pressing: HashSet::new() }
    }
}

impl Default for BakedInputs {
    fn default() -> (baker: BakedInputs)
        ensures
            baker@ == BakedInputsView::empty(),
    {
        BakedInputs {
            cur_temp_input: RawInputData::empty(),
            last_frame_input: RawInputData::empty(),
            cur_frame_input: RawInputData::empty(),
            cur_temp_game_input: RawInputData::empty(),
            last_temp_game_input: RawInputData::empty(),
            pressed_any_cur_frame: false,
        }
    }
}

impl BakedInputs {
    /// Takes in the keys that went down and those that came up since the
    /// last call.
    pub fn process(&mut self, pressed: &HashSet<KeyCode>, released: &HashSet<KeyCode>)
        ensures
            final(self)@ == old(self)@.process(pressed@, released@),
    {
        insert_all(&mut self.cur_temp_input.pressing, pressed);
        insert_all(&mut self.cur_temp_game_input.pressing, pressed);
        remove_held(
            &mut self.cur_temp_game_input.pressing,
            released,
            &self.last_temp_game_input.pressing,
        );
        remove_held(&mut self.cur_temp_input.pressing, released, &self.cur_frame_input.pressing);
    }

    /// Crosses the frame boundary: the current frame is saved as the last
    /// one, and a copy of the accumulator becomes the current frame.
    pub fn swap_frame(&mut self)
        ensures
            final(self)@ == old(self)@.swap_frame(),
    {
        std::mem::swap(&mut self.cur_frame_input, &mut self.last_frame_input);
        self.cur_frame_input = self.cur_temp_input.clone();
        self.pressed_any_cur_frame = holds_new_key(
            &self.cur_frame_input.pressing,
            &self.last_frame_input.pressing,
        );
    }

    /// Records a pointer position.
    pub fn move_pointer(&mut self, x: i32, y: i32)
        ensures
            final(self)@ == old(self)@.move_pointer(x as int, y as int),
    {
        self.cur_temp_input.x = x;
        self.cur_temp_input.y = y;
        self.cur_temp_game_input.x = x;
        self.cur_temp_game_input.y = y;
    }

    /// Whether the key is held in the current frame.
    pub fn is_holding(&self, key: KeyCode) -> (held: bool)
        ensures
            held == self@.cur_frame_input.pressing.contains(key),
    {
        self.cur_frame_input.pressing.contains(&key)
    }

    /// Whether all of `keys` are held in the current frame and at least one
    /// of them was not held in the last: the rising edge of the whole set.
    pub fn is_pressed(&self, keys: &[KeyCode]) -> (pressed: bool)
        ensures
            pressed == self@.is_pressed(keys@),
    {
        let mut any_new = false;
        let mut all_held = true;
        for i in 0..keys.len()
            invariant
                any_new == exists|j: int|
                    0 <= j < i && !self.last_frame_input.pressing@.contains(#[trigger] keys@[j]),
                all_held == forall|j: int|
                    0 <= j < i ==> self.cur_frame_input.pressing@.contains(#[trigger] keys@[j]),
        {
            if !self.last_frame_input.pressing.contains(&keys[i]) {
                any_new = true;
            }
            if !self.cur_frame_input.pressing.contains(&keys[i]) {
                all_held = false;
            }
        }
        any_new && all_held
    }
}

/// A key that goes down and comes up within one batch is seen by the next
/// frame if and only if the current frame did not hold it; where it did
/// not, that next frame reports a newly pressed key.
pub proof fn lemma_press_and_release_in_one_batch(
    baker: BakedInputsView,
    pressed: Set<KeyCode>,
    released: Set<KeyCode>,
    key: KeyCode,
)
    requires
        pressed.contains(key),
        released.contains(key),
    ensures
        ({
            let after = baker.process(pressed, released).swap_frame();
            &&& after.cur_frame_input.pressing.contains(key)
                <==> !baker.cur_frame_input.pressing.contains(key)
            &&& !baker.cur_frame_input.pressing.contains(key) ==> after.pressed_any_cur_frame
        }),
{
    let batch = baker.process(pressed, released);
    assert(batch.cur_temp_input.pressing.contains(key) <==> !baker.cur_frame_input.pressing.contains(
        key,
    ));
}

/// A key that the current frame holds, and that goes down and comes up
/// within one batch, is gone from the next frame; and that frame reports a
/// newly pressed key if the accumulator then holds another key that the
/// current frame did not hold.
pub proof fn lemma_press_and_release_while_held(
    baker: BakedInputsView,
    pressed: Set<KeyCode>,
    released: Set<KeyCode>,
    key: KeyCode,
    other: KeyCode,
)
    requires
        pressed.contains(key),
        released.contains(key),
        baker.cur_frame_input.pressing.contains(key),
        pressed.contains(other) || baker.cur_temp_input.pressing.contains(other),
        !baker.cur_frame_input.pressing.contains(other),
    ensures
        ({
            let after = baker.process(pressed, released).swap_frame();
            &&& after.pressed_any_cur_frame
            &&& !after.cur_frame_input.pressing.contains(key)
        }),
{
    let batch = baker.process(pressed, released);
    assert(batch.cur_temp_input.pressing.contains(other));
}

/// A press is never lost: a key that went down in a batch and that the
/// current frame did not hold is held in the next frame, which reports a
/// newly pressed key, whatever else the batch released.
pub proof fn lemma_press_registers(
    baker: BakedInputsView,
    pressed: Set<KeyCode>,
    released: Set<KeyCode>,
    key: KeyCode,
)
    requires
        pressed.contains(key),
        !baker.cur_frame_input.pressing.contains(key),
    ensures
        ({
            let after = baker.process(pressed, released).swap_frame();
            &&& after.cur_frame_input.pressing.contains(key)
            &&& !after.last_frame_input.pressing.contains(key)
            &&& after.pressed_any_cur_frame
            &&& after.is_pressed(seq![key])
        }),
{
    let batch = baker.process(pressed, released);
    let after = batch.swap_frame();
    assert(batch.cur_temp_input.pressing.contains(key));
    let keys = seq![key];
    assert(keys[0] == key);
}

/// A release takes effect where the current frame holds the key: the key
/// is then gone from the accumulator and from the next frame.
pub proof fn lemma_release_applies(
    baker: BakedInputsView,
    pressed: Set<KeyCode>,
    released: Set<KeyCode>,
    key: KeyCode,
)
    requires
        released.contains(key),
        baker.cur_frame_input.pressing.contains(key),
    ensures
        ({
            let after = baker.process(pressed, released).swap_frame();
            &&& !after.cur_temp_input.pressing.contains(key)
            &&& !after.cur_frame_input.pressing.contains(key)
            &&& !after.is_pressed(seq![key])
        }),
{
    let after = baker.process(pressed, released).swap_frame();
    let keys = seq![key];
    assert(keys[0] == key);
}

/// After a frame boundary a single key counts as pressed exactly when the
/// accumulator held it and the frame before did not: true on the frame of
/// the rising edge, false on every later frame while the key stays held.
pub proof fn lemma_is_pressed_rising_edge(baker: BakedInputsView, key: KeyCode)
    ensures
        baker.swap_frame().is_pressed(seq![key]) <==> baker.cur_temp_input.pressing.contains(key)
            && !baker.cur_frame_input.pressing.contains(key),
        !baker.swap_frame().swap_frame().is_pressed(seq![key]),
{
    let keys = seq![key];
    assert(keys[0] == key);
    let once = baker.swap_frame();
    let twice = once.swap_frame();
    assert(twice.last_frame_input.pressing == twice.cur_frame_input.pressing);
}

} // verus!
