//! How the event loop should wait and whether a frame is due, and the
//! merge that combines the answers of several states into one.

use vstd::prelude::*;
use vstd::seq_lib::{to_multiset_contains, to_multiset_len, to_multiset_remove};

verus! {

/// How the event loop waits for the next platform event.
#[derive(Clone, Copy, Debug, PartialEq, Eq, Structural)]
pub enum WaitPolicy {
    /// Sleep until the platform delivers an event.
    Wait,
    /// Sleep until an event arrives or the application clock reaches the
    /// deadline, given in nanoseconds.
    WaitUntil(u64),
    /// Do not sleep: come back at once.
    Poll,
}

impl WaitPolicy {
    /// The more eager of two policies: `Poll` beats a deadline, a deadline
    /// beats `Wait`, and of two deadlines the earlier one wins.
    pub open spec fn eager(self, other: WaitPolicy) -> WaitPolicy {
        match (self, other) {
            (WaitPolicy::Poll, _) => WaitPolicy::Poll,
            (_, WaitPolicy::Poll) => WaitPolicy::Poll,
            (WaitPolicy::Wait, _) => other,
            (_, WaitPolicy::Wait) => self,
            (WaitPolicy::WaitUntil(t1), WaitPolicy::WaitUntil(t2)) => WaitPolicy::WaitUntil(
                if t1 <= t2 {
                    t1
                } else {
                    t2
                },
            ),
        }
    }

    /// The instant at which a policy lets the loop run again, on a scale
    /// where `Poll` is before every deadline and `Wait` after all of them.
    pub open spec fn wake(self) -> int {
        match self {
            WaitPolicy::Poll => -1,
            WaitPolicy::WaitUntil(t) => t as int,
            WaitPolicy::Wait => u64::MAX as int + 1,
        }
    }

    /// Computes the more eager of two policies.
    pub fn most_eager(self, other: WaitPolicy) -> (r: WaitPolicy)
        ensures
            r == self.eager(other),
    {
        match self {
            WaitPolicy::Poll => WaitPolicy::Poll,
            WaitPolicy::Wait => other,
            WaitPolicy::WaitUntil(t1) => match other {
                WaitPolicy::Poll => WaitPolicy::Poll,
                WaitPolicy::Wait => self,
                WaitPolicy::WaitUntil(t2) => WaitPolicy::WaitUntil(
                    if t1 <= t2 {
                        t1
                    } else {
                        t2
                    },
                ),
            },
        }
    }
}

/// What one tick asks of the event loop: how to wait, and whether to draw.
#[derive(Clone, Copy, Debug, PartialEq, Eq, Structural)]
pub struct LoopState {
    pub control_flow: WaitPolicy,
    pub render: bool,
}

impl LoopState {
    /// The merge of two contributions: a frame is due if either asks for
    /// one, and the loop waits as the more eager of the two wants.
    pub open spec fn merge(self, rhs: LoopState) -> LoopState {
        LoopState {
            control_flow: self.control_flow.eager(rhs.control_flow),
            render: self.render || rhs.render,
        }
    }

    /// Wait for events and draw nothing. It is the neutral element of `merge`.
    pub open spec fn spec_wait_all() -> LoopState {
        LoopState { control_flow: WaitPolicy::Wait, render: false }
    }

    /// Wait for events, and draw a frame.
    pub open spec fn spec_wait() -> LoopState {
        LoopState { control_flow: WaitPolicy::Wait, render: true }
    }

    /// Poll, and draw a frame.
    pub open spec fn spec_poll() -> LoopState {
        LoopState { control_flow: WaitPolicy::Poll, render: true }
    }

    /// Poll without drawing.
    pub open spec fn spec_poll_without_render() -> LoopState {
        LoopState { control_flow: WaitPolicy::Poll, render: false }
    }

    #[verifier::when_used_as_spec(spec_wait_all)]
    pub fn wait_all() -> (r: LoopState)
        ensures
            r == Self::spec_wait_all(),
    {
        LoopState { control_flow: WaitPolicy::Wait, render: false }
    }

    #[verifier::when_used_as_spec(spec_wait)]
    pub fn wait() -> (r: LoopState)
        ensures
            r == Self::spec_wait(),
    {
        LoopState { control_flow: WaitPolicy::Wait, render: true }
    }

    #[verifier::when_used_as_spec(spec_poll)]
    pub fn poll() -> (r: LoopState)
        ensures
            r == Self::spec_poll(),
    {
        LoopState { control_flow: WaitPolicy::Poll, render: true }
    }

    #[verifier::when_used_as_spec(spec_poll_without_render)]
    pub fn poll_without_render() -> (r: LoopState)
        ensures
            r == Self::spec_poll_without_render(),
    {
        LoopState { control_flow: WaitPolicy::Poll, render: false }
    }

    /// Wait until `dur` nanoseconds after `now`, the current reading of the
    /// application clock.
    pub fn wait_until(now: u64, dur: u64, render: bool) -> (r: LoopState)
        requires
            now + dur <= u64::MAX,
        ensures
            r == (LoopState { control_flow: WaitPolicy::WaitUntil((now + dur) as u64), render }),
    {
        LoopState { control_flow: WaitPolicy::WaitUntil(now + dur), render }
    }

    /// Merges `rhs` into `self`.
    pub fn bitor_assign(&mut self, rhs: LoopState)
        ensures
            *final(self) == old(self).merge(rhs),
    {
        self.render = self.render || rhs.render;
        self.control_flow = self.control_flow.most_eager(rhs.control_flow);
    }
}

impl std::ops::BitOrAssign for LoopState {
    /// `a |= b` merges `b` into `a`.
    fn bitor_assign(&mut self, rhs: LoopState)
        ensures
            *final(self) == old(self).merge(rhs),
    {
        LoopState::bitor_assign(self, rhs)
    }
}

/// The merge of a whole sequence of contributions, taken from the left and
/// starting from `wait_all`.
pub open spec fn merge_all(s: Seq<LoopState>) -> LoopState
    decreases s.len(),
{
    if s.len() == 0 {
        LoopState::spec_wait_all()
    } else {
        merge_all(s.drop_last()).merge(s.last())
    }
}

/// The merge of a whole sequence of contributions, taken from the right.
pub open spec fn merge_all_right(s: Seq<LoopState>) -> LoopState
    decreases s.len(),
{
    if s.len() == 0 {
        LoopState::spec_wait_all()
    } else {
        s.first().merge(merge_all_right(s.drop_first()))
    }
}

/// The more eager policy is the one that wakes first.
pub proof fn lemma_eager_wakes_first(a: WaitPolicy, b: WaitPolicy)
    ensures
        a.eager(b).wake() == if a.wake() <= b.wake() {
            a.wake()
        } else {
            b.wake()
        },
        a.eager(b) == a || a.eager(b) == b,
{
}

/// The order of the two arguments of `merge` does not matter.
pub proof fn lemma_merge_commutative(a: LoopState, b: LoopState)
    ensures
        a.merge(b) == b.merge(a),
{
}

/// The grouping of three merged contributions does not matter.
pub proof fn lemma_merge_associative(a: LoopState, b: LoopState, c: LoopState)
    ensures
        a.merge(b).merge(c) == a.merge(b.merge(c)),
{
}

/// Merging a contribution with itself changes nothing.
pub proof fn lemma_merge_idempotent(a: LoopState)
    ensures
        a.merge(a) == a,
{
}

/// `wait_all` is neutral on both sides, and `Poll` with a frame absorbs
/// every other contribution.
pub proof fn lemma_merge_neutral_and_absorbing(a: LoopState)
    ensures
        LoopState::spec_wait_all().merge(a) == a,
        a.merge(LoopState::spec_wait_all()) == a,
        LoopState::spec_poll().merge(a) == LoopState::spec_poll(),
        a.merge(LoopState::spec_poll()) == LoopState::spec_poll(),
{
}

/// Merging two sequences one after the other gives the merge of their
/// separate results: a fold may be cut at any point.
pub proof fn lemma_merge_all_concat(s: Seq<LoopState>, t: Seq<LoopState>)
    ensures
        merge_all(s + t) == merge_all(s).merge(merge_all(t)),
    decreases t.len(),
{
    if t.len() == 0 {
        assert(s + t =~= s);
    } else {
        assert((s + t).drop_last() =~= s + t.drop_last());
        assert((s + t).last() == t.last());
        lemma_merge_all_concat(s, t.drop_last());
        lemma_merge_associative(merge_all(s), merge_all(t.drop_last()), t.last());
    }
}

/// Folding from the left and folding from the right agree.
pub proof fn lemma_merge_all_left_is_right(s: Seq<LoopState>)
    ensures
        merge_all(s) == merge_all_right(s),
    decreases s.len(),
{
    if s.len() > 0 {
        let head = seq![s.first()];
        assert(s =~= head + s.drop_first());
        lemma_merge_all_concat(head, s.drop_first());
        lemma_merge_all_left_is_right(s.drop_first());
        assert(head.drop_last() =~= Seq::<LoopState>::empty());
        assert(merge_all(head) == s.first()) by {
            assert(merge_all(head.drop_last()) == LoopState::spec_wait_all());
            assert(head.last() == s.first());
        }
    }
}

/// The merges of the groups of a sequence of contributions, one for each
/// group.
pub open spec fn merge_each(groups: Seq<Seq<LoopState>>) -> Seq<LoopState> {
    Seq::new(groups.len(), |i: int| merge_all(groups[i]))
}

/// The contributions of all groups, one group after the other.
pub open spec fn ungrouped(groups: Seq<Seq<LoopState>>) -> Seq<LoopState>
    decreases groups.len(),
{
    if groups.len() == 0 {
        Seq::empty()
    } else {
        ungrouped(groups.drop_last()) + groups.last()
    }
}

/// However a sequence of contributions is cut into groups, merging the
/// merges of the groups gives the merge of the whole sequence.
pub proof fn lemma_merge_all_grouped(groups: Seq<Seq<LoopState>>)
    ensures
        merge_all(merge_each(groups)) == merge_all(ungrouped(groups)),
    decreases groups.len(),
{
    if groups.len() == 0 {
        assert(merge_each(groups) =~= Seq::<LoopState>::empty());
    } else {
        let front = groups.drop_last();
        lemma_merge_all_grouped(front);
        lemma_merge_all_concat(ungrouped(front), groups.last());
        assert(merge_each(groups).drop_last() =~= merge_each(front));
        assert(merge_each(groups).last() == merge_all(groups.last()));
    }
}

/// Taking one contribution out of a sequence and merging it in last gives
/// the merge of the whole sequence.
pub proof fn lemma_merge_all_remove(s: Seq<LoopState>, i: int)
    requires
        0 <= i < s.len(),
    ensures
        merge_all(s.remove(i)).merge(s[i]) == merge_all(s),
{
    let front = s.subrange(0, i);
    let one = seq![s[i]];
    let back = s.subrange(i + 1, s.len() as int);
    assert(s =~= front + one + back);
    assert(s.remove(i) =~= front + back);
    lemma_merge_all_concat(front + one, back);
    lemma_merge_all_concat(front, one);
    lemma_merge_all_concat(front, back);
    assert(merge_all(one) == s[i]) by {
        assert(one.drop_last() =~= Seq::<LoopState>::empty());
        assert(one.last() == s[i]);
        assert(merge_all(one.drop_last()) == LoopState::spec_wait_all());
    }
    lemma_merge_associative(merge_all(front), s[i], merge_all(back));
    lemma_merge_commutative(s[i], merge_all(back));
    lemma_merge_associative(merge_all(front), merge_all(back), s[i]);
}

/// The order of the contributions does not matter: two sequences with the
/// same contributions, each as often in the one as in the other, merge to
/// the same result.
pub proof fn lemma_merge_all_any_order(s: Seq<LoopState>, t: Seq<LoopState>)
    requires
        s.to_multiset() == t.to_multiset(),
    ensures
        merge_all(s) == merge_all(t),
    decreases s.len(),
{
    to_multiset_len(s);
    to_multiset_len(t);
    if s.len() == 0 {
        assert(t =~= s);
    } else {
        let x = s.last();
        assert(s.contains(x)) by {
            assert(s[s.len() - 1] == x);
        }
        to_multiset_contains(s, x);
        to_multiset_contains(t, x);
        let j = choose|j: int| 0 <= j < t.len() && t[j] == x;
        to_multiset_remove(t, j);
        to_multiset_remove(s, s.len() - 1);
        assert(s.remove(s.len() - 1) =~= s.drop_last());
        lemma_merge_all_any_order(s.drop_last(), t.remove(j));
        lemma_merge_all_remove(t, j);
    }
}

} // verus!
