//! The frame scheduler: which frame is coded when, as what, and from which
//! supports.

use crate::videocode::FrameType;
use vstd::prelude::*;

verus! {

/// The longest run of predicted supports between two supports coded by
/// themselves.
pub const MAX_P_FRAMES: usize = 10;

/// The distance from one support to the next.
pub const SUPPORT_STEP: usize = 3;

/// One step of the coding order: the frame at `index` in display order,
/// coded as `frame_type`. A `P` frame is predicted from the support at
/// `prev`; a `B` frame from the supports at `prev` and `next`. Where a frame
/// has no such support, the field holds the frame's own index.
#[derive(Clone, Copy, Debug, PartialEq, Eq, Structural)]
pub struct CodedFrame {
    pub frame_type: FrameType,
    pub index: usize,
    pub prev: usize,
    pub next: usize,
}

/// The support that closes group `group` of a sequence of `count` frames:
/// three frames on, or the last frame.
pub open spec fn support_of(count: int, group: int) -> int {
    if 3 * group + 3 < count - 1 {
        3 * group + 3
    } else {
        count - 1
    }
}

/// The step at position `j` of the coding order of `count` frames with
/// motion. First comes frame 0, coded by itself. Then come groups of up to
/// three steps: the support that closes the group, then the frames between
/// the support before and this one. Every eleventh support is coded by
/// itself, the others as `P`; the frames between are coded as `B`.
pub open spec fn step_at(count: int, j: int) -> CodedFrame {
    if j == 0 {
        CodedFrame { frame_type: FrameType::IFrame, index: 0, prev: 0, next: 0 }
    } else {
        let group = (j - 1) / 3;
        let place = (j - 1) % 3;
        let before = 3 * group;
        let support = support_of(count, group);
        if place == 0 {
            if (group + 1) % 11 == 0 {
                CodedFrame {
                    frame_type: FrameType::IFrame,
                    index: support as usize,
                    prev: support as usize,
                    next: support as usize,
                }
            } else {
                CodedFrame {
                    frame_type: FrameType::PFrame,
                    index: support as usize,
                    prev: before as usize,
                    next: support as usize,
                }
            }
        } else {
            CodedFrame {
                frame_type: FrameType::BFrame,
                index: (before + place) as usize,
                prev: before as usize,
                next: support as usize,
            }
        }
    }
}

/// The coding order of `count` frames: without motion, every frame by
/// itself in display order; with motion, the steps of `step_at`.
pub open spec fn coding_order(count: int, nomotion: bool) -> Seq<CodedFrame> {
    Seq::new(
        count as nat,
        |j: int|
            if nomotion {
                CodedFrame {
                    frame_type: FrameType::IFrame,
                    index: j as usize,
                    prev: j as usize,
                    next: j as usize,
                }
            } else {
                step_at(count, j)
            },
    )
}

/// The coding order of `frame_count` frames.
pub fn schedule(frame_count: usize, nomotion: bool) -> (plan: Vec<CodedFrame>)
    ensures
        plan@ == coding_order(frame_count as int, nomotion),
{
    let mut plan: Vec<CodedFrame> = Vec::new();
    if frame_count == 0 {
        assert(plan@ =~= coding_order(0, nomotion));
        return plan;
    }
    if nomotion {
        let mut j: usize = 0;
        while j < frame_count
            invariant
                0 <= j <= frame_count,
                plan@.len() == j,
                forall|k: int| 0 <= k < j ==> plan@[k] == coding_order(frame_count as int, true)[k],
            decreases frame_count - j,
        {
            plan.push(CodedFrame { frame_type: FrameType::IFrame, index: j, prev: j, next: j });
            j = j + 1;
        }
        assert(plan@ =~= coding_order(frame_count as int, true));
        return plan;
    }
    let last = frame_count - 1;
    plan.push(CodedFrame { frame_type: FrameType::IFrame, index: 0, prev: 0, next: 0 });
    let mut prev_support_id: usize = 0;
    let mut p_count: usize = 0;
    let ghost mut group: int = 0;
    loop
        invariant
            last == frame_count - 1,
            0 <= group,
            prev_support_id <= last,
            prev_support_id < last ==> prev_support_id == 3 * group,
            p_count == group % 11,
            plan@.len() == prev_support_id + 1,
            forall|k: int| 0 <= k < plan@.len() ==> plan@[k] == step_at(frame_count as int, k),
        ensures
            plan@.len() == frame_count,
            forall|k: int| 0 <= k < plan@.len() ==> plan@[k] == step_at(frame_count as int, k),
        decreases last - prev_support_id,
    {
        let next_support_id = if last - prev_support_id > SUPPORT_STEP {
            prev_support_id + SUPPORT_STEP
        } else {
            last
        };
        if prev_support_id == next_support_id {
            break ;
        }
        let ghost at = plan@.len() as int;
        assert(next_support_id == support_of(frame_count as int, group));
        assert((at - 1) / 3 == group && (at - 1) % 3 == 0);
        if p_count < MAX_P_FRAMES {
            plan.push(
                CodedFrame {
                    frame_type: FrameType::PFrame,
                    index: next_support_id,
                    prev: prev_support_id,
                    next: next_support_id,
                },
            );
            p_count = p_count + 1;
        } else {
            plan.push(
                CodedFrame {
                    frame_type: FrameType::IFrame,
                    index: next_support_id,
                    prev: next_support_id,
                    next: next_support_id,
                },
            );
            p_count = 0;
        }
        assert(plan@[at] == step_at(frame_count as int, at));
        if prev_support_id + 1 < next_support_id {
            assert(at / 3 == group && at % 3 == 1);
            plan.push(
                CodedFrame {
                    frame_type: FrameType::BFrame,
                    index: prev_support_id + 1,
                    prev: prev_support_id,
                    next: next_support_id,
                },
            );
            assert(plan@[at + 1] == step_at(frame_count as int, at + 1));
        }
        if prev_support_id + 2 < next_support_id {
            assert((at + 1) / 3 == group && (at + 1) % 3 == 2);
            plan.push(
                CodedFrame {
                    frame_type: FrameType::BFrame,
                    index: prev_support_id + 2,
                    prev: prev_support_id,
                    next: next_support_id,
                },
            );
            assert(plan@[at + 2] == step_at(frame_count as int, at + 2));
        }
        prev_support_id = next_support_id;
        proof {
            group = group + 1;
        }
    }
    assert(plan@ =~= coding_order(frame_count as int, false));
    plan
}

/// The position in the coding order, with motion, of the frame that stands
/// at `index` in display order.
pub open spec fn position_of(count: int, index: int) -> int {
    if index == 0 {
        0
    } else if index % 3 == 0 || index == count - 1 {
        3 * ((index - 1) / 3) + 1
    } else {
        index + 1
    }
}

/// Each frame is coded at its position.
pub proof fn lemma_position_of(count: int, index: int)
    requires
        0 <= index < count <= usize::MAX,
    ensures
        0 <= position_of(count, index) < count,
        step_at(count, position_of(count, index)).index == index,
{
    let j = position_of(count, index);
    if index == 0 {
    } else if index % 3 == 0 || index == count - 1 {
        let group = (index - 1) / 3;
        assert((j - 1) / 3 == group && (j - 1) % 3 == 0);
        assert(support_of(count, group) == index);
    } else {
        let group = index / 3;
        assert((j - 1) / 3 == group && (j - 1) % 3 == index % 3);
    }
}

/// Each step codes a frame of the sequence, and stands at the position of
/// that frame.
pub proof fn lemma_step_at(count: int, j: int)
    requires
        0 <= j < count <= usize::MAX,
    ensures
        0 <= step_at(count, j).index < count,
        position_of(count, step_at(count, j).index as int) == j,
{
    if j > 0 {
        let group = (j - 1) / 3;
        let place = (j - 1) % 3;
        let support = support_of(count, group);
        if place == 0 {
            assert((support - 1) / 3 == group);
        } else {
            let index = 3 * group + place;
            assert(index % 3 == place);
        }
    }
}

/// Whether some step of `order` codes the frame at `index`.
pub open spec fn codes_frame(order: Seq<CodedFrame>, index: int) -> bool {
    exists|j: int| 0 <= j < order.len() && (#[trigger] order[j]).index == index
}

/// The coding order holds every frame of the sequence exactly once: as many
/// steps as frames, each frame in some step, and no frame in two.
pub proof fn lemma_schedule_covers(count: int, nomotion: bool)
    requires
        0 <= count <= usize::MAX,
    ensures
        coding_order(count, nomotion).len() == count,
        forall|index: int|
            0 <= index < count ==> #[trigger] codes_frame(coding_order(count, nomotion), index),
        forall|j: int, k: int|
            0 <= j < count && 0 <= k < count && (#[trigger] coding_order(count, nomotion)[j]).index
                == (#[trigger] coding_order(count, nomotion)[k]).index ==> j == k,
{
    let order = coding_order(count, nomotion);
    assert forall|index: int| 0 <= index < count implies #[trigger] codes_frame(order, index) by {
        if nomotion {
            assert(order[index].index == index);
        } else {
            lemma_position_of(count, index);
            assert(order[position_of(count, index)].index == index);
        }
    }
    assert forall|j: int, k: int|
        0 <= j < count && 0 <= k < count && (#[trigger] order[j]).index == (
        #[trigger] order[k]).index implies j == k by {
        if !nomotion {
            lemma_step_at(count, j);
            lemma_step_at(count, k);
        }
    }
}

/// The number of `P` frames among the first `j` steps that come after the
/// last of them that was coded by itself.
pub open spec fn p_run(order: Seq<CodedFrame>, j: int) -> int
    decreases j,
{
    if j <= 0 {
        0
    } else {
        match order[j - 1].frame_type {
            FrameType::IFrame => 0,
            FrameType::PFrame => 1 + p_run(order, j - 1),
            FrameType::BFrame => p_run(order, j - 1),
        }
    }
}

/// With motion, the run of `P` frames after `j` steps is the number of
/// supports so far, counted from the last that was coded by itself.
proof fn lemma_p_run_with_motion(count: int, j: int)
    requires
        0 <= j <= count <= usize::MAX,
    ensures
        p_run(coding_order(count, false), j) == ((j + 1) / 3) % 11,
    decreases j,
{
    if j > 0 {
        lemma_p_run_with_motion(count, j - 1);
        let order = coding_order(count, false);
        assert(order[j - 1] == step_at(count, j - 1));
    }
}

/// Without motion there is no `P` frame.
proof fn lemma_p_run_without_motion(count: int, j: int)
    requires
        0 <= j <= count <= usize::MAX,
    ensures
        p_run(coding_order(count, true), j) == 0,
    decreases j,
{
    if j > 0 {
        lemma_p_run_without_motion(count, j - 1);
    }
}

/// No run of `P` frames is longer than ten.
pub proof fn lemma_p_runs_bounded(count: int, nomotion: bool, j: int)
    requires
        0 <= j <= count <= usize::MAX,
    ensures
        p_run(coding_order(count, nomotion), j) <= MAX_P_FRAMES,
{
    if nomotion {
        lemma_p_run_without_motion(count, j);
    } else {
        lemma_p_run_with_motion(count, j);
    }
}

/// Whether the step at position `j` codes a support: a frame that is no `B`
/// frame.
pub open spec fn is_support(count: int, j: int) -> bool {
    step_at(count, j).frame_type != FrameType::BFrame
}

/// Every `B` frame lies strictly between its two supports, and both were
/// coded before it, the earlier one first.
pub proof fn lemma_b_frame_between_supports(count: int, j: int)
    requires
        0 <= j < count <= usize::MAX,
        step_at(count, j).frame_type == FrameType::BFrame,
    ensures
        ({
            let step = step_at(count, j);
            let before = position_of(count, step.prev as int);
            let after = position_of(count, step.next as int);
            &&& step.prev < step.index < step.next < count
            &&& 0 <= before < after < j
            &&& is_support(count, before)
            &&& is_support(count, after)
            &&& step_at(count, before).index == step.prev
            &&& step_at(count, after).index == step.next
        }),
{
}

/// Every `P` frame comes after its support, which was coded before it and
/// is the support coded last.
pub proof fn lemma_p_frame_after_support(count: int, j: int)
    requires
        0 <= j < count <= usize::MAX,
        step_at(count, j).frame_type == FrameType::PFrame,
    ensures
        ({
            let step = step_at(count, j);
            let before = position_of(count, step.prev as int);
            &&& step.prev < step.index < count
            &&& step.next == step.index
            &&& 0 <= before < j
            &&& is_support(count, before)
            &&& step_at(count, before).index == step.prev
            &&& forall|k: int| before < k < j ==> !is_support(count, k)
        }),
{
}

/// The first frame is always coded by itself.
pub proof fn lemma_first_frame(count: int, nomotion: bool)
    requires
        1 <= count <= usize::MAX,
    ensures
        coding_order(count, nomotion)[0].frame_type == FrameType::IFrame,
        coding_order(count, nomotion)[0].index == 0,
{
}

/// How many `B` frames follow position `j` directly.
pub open spec fn following_b(types: Seq<FrameType>, j: int) -> int
    decreases types.len() - j,
{
    if 0 <= j && j + 1 < types.len() && types[j + 1] == FrameType::BFrame {
        1 + following_b(types, j + 1)
    } else {
        0
    }
}

/// The place in display order of the frame coded at position `j`, read
/// from the types of the coded frames alone: a `B` frame is shown one place
/// before it is coded, and a support after all the `B` frames that follow
/// it directly.
pub open spec fn display_index(types: Seq<FrameType>, j: int) -> int {
    if types[j] == FrameType::BFrame {
        j - 1
    } else {
        j + following_b(types, j)
    }
}

/// The types of the steps of a coding order.
pub open spec fn types_of(order: Seq<CodedFrame>) -> Seq<FrameType> {
    Seq::new(order.len(), |j: int| order[j].frame_type)
}

/// For each coded frame, in coding order, its place in display order. A
/// stream that starts with a `B` frame has no display order for it; such a
/// frame is given place 0.
pub fn display_order(types: &[FrameType]) -> (places: Vec<usize>)
    ensures
        places@.len() == types@.len(),
        forall|j: int|
            0 <= j < types@.len() ==> #[trigger] places@[j] == (if j == 0 && types@[0]
                == FrameType::BFrame {
                0
            } else {
                display_index(types@, j)
            }),
{
    let count = types.len();
    let mut places: Vec<usize> = Vec::new();
    let mut i: usize = 0;
    while i < count
        invariant
            0 <= i <= count,
            places@.len() == i,
        decreases count - i,
    {
        places.push(0);
        i = i + 1;
    }
    let mut j: usize = count;
    let mut run: usize = 0;
    while j > 0
        invariant
            0 <= j <= count,
            count == types@.len(),
            places@.len() == count,
            j < count ==> run == (if types@[j as int] == FrameType::BFrame {
                1 + following_b(types@, j as int)
            } else {
                0
            }),
            j == count ==> run == 0,
            run <= count - j,
            forall|k: int|
                j <= k < count ==> #[trigger] places@[k] == (if k == 0 && types@[0]
                    == FrameType::BFrame {
                    0
                } else {
                    display_index(types@, k)
                }),
        decreases j,
    {
        j = j - 1;
        assert(following_b(types@, j as int) == run);
        match types[j] {
            FrameType::BFrame => {
                places[j] = if j == 0 {
                    0
                } else {
                    j - 1
                };
                run = run + 1;
            },
            _ => {
                places[j] = j + run;
                run = 0;
            },
        }
    }
    places
}

/// With motion, no more `B` frames follow a step than the steps that its
/// group has left.
proof fn lemma_following_b(count: int, j: int)
    requires
        0 <= j < count <= usize::MAX,
    ensures
        ({
            let types = types_of(coding_order(count, false));
            let group = (j - 1) / 3;
            let size = support_of(count, group) - 3 * group;
            following_b(types, j) == (if j == 0 {
                0
            } else {
                size - 1 - (j - 1) % 3
            })
        }),
    decreases count - j,
{
    let order = coding_order(count, false);
    let types = types_of(order);
    if j + 1 < count {
        lemma_following_b(count, j + 1);
        assert(types[j + 1] == step_at(count, j + 1).frame_type);
    }
}

/// What a decoder reads from the types alone is the display order that the
/// scheduler coded from.
pub proof fn lemma_display_order(count: int, nomotion: bool, j: int)
    requires
        0 <= j < count <= usize::MAX,
    ensures
        display_index(types_of(coding_order(count, nomotion)), j) == coding_order(
            count,
            nomotion,
        )[j].index,
{
    let order = coding_order(count, nomotion);
    let types = types_of(order);
    if nomotion {
        if j + 1 < count {
            assert(types[j + 1] == FrameType::IFrame);
        }
    } else {
        lemma_following_b(count, j);
        assert(types[j] == step_at(count, j).frame_type);
    }
}

/// Which frames the two reference slots hold, by their places in display
/// order: the support coded last in `next`, the one before it in `prev`.
#[derive(Clone, Copy, Debug, PartialEq, Eq, Structural)]
pub struct ReferenceSlots {
    pub prev: Option<usize>,
    pub next: Option<usize>,
}

/// The slots after a frame of type `t` at `index` was coded or decoded: a
/// support moves into `next`, and what was there into `prev`; a `B` frame
/// leaves the slots alone.
pub open spec fn slots_after(slots: ReferenceSlots, t: FrameType, index: usize) -> ReferenceSlots {
    if t == FrameType::BFrame {
        slots
    } else {
        ReferenceSlots { prev: slots.next, next: Some(index) }
    }
}

/// The slots after the first `j` steps of a coding order.
pub open spec fn slots_at(order: Seq<CodedFrame>, j: int) -> ReferenceSlots
    decreases j,
{
    if j <= 0 {
        ReferenceSlots { prev: None, next: None }
    } else {
        slots_after(slots_at(order, j - 1), order[j - 1].frame_type, order[j - 1].index)
    }
}

impl ReferenceSlots {
    /// Empty slots, as before the first frame.
    pub fn new() -> (slots: ReferenceSlots)
        ensures
            slots == (ReferenceSlots { prev: None, next: None }),
    {
        ReferenceSlots { prev: None, next: None }
    }

    /// Takes note of a frame of type `t` at `index` that was coded or
    /// decoded.
    pub fn update(&mut self, t: FrameType, index: usize)
        ensures
            *final(self) == slots_after(*old(self), t, index),
    {
        match t {
            FrameType::BFrame => {},
            _ => {
                self.prev = self.next;
                self.next = Some(index);
            },
        }
    }
}

/// With motion, after the first step the slot `next` holds the support of
/// the group coded last, and after the second support the slot `prev` holds
/// the support of the group before.
proof fn lemma_slots_with_motion(count: int, j: int)
    requires
        1 <= j <= count <= usize::MAX,
    ensures
        ({
            let slots = slots_at(coding_order(count, false), j);
            let group = (j - 1) / 3;
            if j == 1 {
                slots == (ReferenceSlots { prev: None, next: Some(0usize) })
            } else if (j - 1) % 3 == 0 {
                &&& slots.next == Some((3 * group) as usize)
                &&& group >= 1 ==> slots.prev == Some((3 * (group - 1)) as usize)
            } else {
                &&& slots.next == Some(support_of(count, group) as usize)
                &&& slots.prev == Some((3 * group) as usize)
            }
        }),
    decreases j,
{
    let order = coding_order(count, false);
    assert(order[j - 1] == step_at(count, j - 1));
    if j > 1 {
        lemma_slots_with_motion(count, j - 1);
        let before = j - 1;
        assert((before - 1) / 3 == (if (j - 1) % 3 == 0 {
            (j - 1) / 3 - 1
        } else {
            (j - 1) / 3
        }) || before == 1);
    } else {
        assert(slots_at(order, 0) == (ReferenceSlots { prev: None, next: None }));
    }
}

/// When a predicted frame is coded or decoded, the slots hold its supports:
/// a `P` frame finds its support in `next`; a `B` frame finds the support
/// before it in `prev` and the one after it in `next`.
pub proof fn lemma_slots_hold_the_supports(count: int, j: int)
    requires
        0 <= j < count <= usize::MAX,
    ensures
        ({
            let step = coding_order(count, false)[j];
            let slots = slots_at(coding_order(count, false), j);
            &&& step.frame_type == FrameType::PFrame ==> slots.next == Some(step.prev)
            &&& step.frame_type == FrameType::BFrame ==> slots.prev == Some(step.prev)
                && slots.next == Some(step.next)
        }),
{
    let order = coding_order(count, false);
    assert(order[j] == step_at(count, j));
    if j >= 1 {
        lemma_slots_with_motion(count, j);
    }
}

} // verus!
