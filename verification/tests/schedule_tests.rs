use nrvc::schedule::{display_order, schedule, CodedFrame, ReferenceSlots, MAX_P_FRAMES};
use nrvc::videocode::FrameType;

fn types(plan: &[CodedFrame]) -> Vec<FrameType> {
    plan.iter().map(|step| step.frame_type).collect()
}

fn letters(plan: &[CodedFrame]) -> String {
    plan.iter()
        .map(|step| match step.frame_type {
            FrameType::IFrame => 'I',
            FrameType::PFrame => 'P',
            FrameType::BFrame => 'B',
        })
        .collect()
}

#[test]
fn no_frames_no_steps() {
    assert_eq!(schedule(0, false), vec![]);
    assert_eq!(schedule(0, true), vec![]);
}

#[test]
fn short_sequences() {
    let i = |index| CodedFrame { frame_type: FrameType::IFrame, index, prev: index, next: index };
    let p = |index, prev| CodedFrame { frame_type: FrameType::PFrame, index, prev, next: index };
    let b = |index, prev, next| CodedFrame { frame_type: FrameType::BFrame, index, prev, next };
    assert_eq!(schedule(1, false), vec![i(0)]);
    assert_eq!(schedule(2, false), vec![i(0), p(1, 0)]);
    assert_eq!(schedule(3, false), vec![i(0), p(2, 0), b(1, 0, 2)]);
    assert_eq!(schedule(4, false), vec![i(0), p(3, 0), b(1, 0, 3), b(2, 0, 3)]);
    assert_eq!(schedule(5, false), vec![i(0), p(3, 0), b(1, 0, 3), b(2, 0, 3), p(4, 3)]);
    assert_eq!(
        schedule(6, false),
        vec![i(0), p(3, 0), b(1, 0, 3), b(2, 0, 3), p(5, 3), b(4, 3, 5)]
    );
    assert_eq!(
        schedule(7, false),
        vec![i(0), p(3, 0), b(1, 0, 3), b(2, 0, 3), p(6, 3), b(4, 3, 6), b(5, 3, 6)]
    );
}

#[test]
fn fourteen_frames_without_motion() {
    let plan = schedule(14, true);
    assert_eq!(plan.len(), 14);
    for (j, step) in plan.iter().enumerate() {
        assert_eq!(step.frame_type, FrameType::IFrame);
        assert_eq!(step.frame_type.code(), 0);
        assert_eq!((step.index, step.prev, step.next), (j, j, j));
    }
}

#[test]
fn thirty_frames_with_motion() {
    let plan = schedule(30, false);
    assert_eq!(letters(&plan), "IPBBPBBPBBPBBPBBPBBPBBPBBPBBPB");
    // Ten supports follow the first frame, so no second frame is coded by
    // itself yet; the eleventh support is.
    let longer = schedule(40, false);
    assert_eq!(letters(&longer), "IPBBPBBPBBPBBPBBPBBPBBPBBPBBPBBIBBPBBPBB");
    assert_eq!(longer[31].index, 33);
    assert_eq!(longer[31].frame_type, FrameType::IFrame);
}

#[test]
fn every_frame_is_coded_once() {
    for nomotion in [false, true] {
        for count in 0..120usize {
            let plan = schedule(count, nomotion);
            assert_eq!(plan.len(), count);
            let mut seen = vec![0; count];
            for step in &plan {
                seen[step.index] += 1;
            }
            assert!(seen.iter().all(|times| *times == 1), "count {}", count);
            if count > 0 {
                assert_eq!(plan[0].frame_type, FrameType::IFrame);
                assert_eq!(plan[0].index, 0);
            }
        }
    }
}

#[test]
fn runs_of_predicted_supports_are_bounded() {
    for count in 0..200usize {
        let plan = schedule(count, false);
        let mut run = 0;
        for step in &plan {
            match step.frame_type {
                FrameType::IFrame => run = 0,
                FrameType::PFrame => run += 1,
                FrameType::BFrame => {}
            }
            assert!(run <= MAX_P_FRAMES);
        }
    }
    assert_eq!(MAX_P_FRAMES, 10);
}

#[test]
fn supports_are_coded_before_the_frames_that_use_them() {
    for count in 1..100usize {
        let plan = schedule(count, false);
        let mut coded_at = vec![usize::MAX; count];
        let mut last_support = 0;
        let mut support_before = 0;
        for (j, step) in plan.iter().enumerate() {
            match step.frame_type {
                FrameType::IFrame => {
                    assert_eq!((step.prev, step.next), (step.index, step.index));
                }
                FrameType::PFrame => {
                    assert!(step.prev < step.index);
                    assert_eq!(step.next, step.index);
                    assert_eq!(step.prev, last_support);
                }
                FrameType::BFrame => {
                    assert!(step.prev < step.index && step.index < step.next);
                    assert_eq!(step.next, last_support);
                    assert_eq!(step.prev, support_before);
                    assert!(coded_at[step.prev] < coded_at[step.next]);
                    assert!(coded_at[step.next] < j);
                }
            }
            if step.frame_type != FrameType::BFrame {
                support_before = last_support;
                last_support = step.index;
            }
            coded_at[step.index] = j;
        }
    }
}

#[test]
fn a_decoder_reads_the_display_order_from_the_types() {
    for nomotion in [false, true] {
        for count in 0..100usize {
            let plan = schedule(count, nomotion);
            let places = display_order(&types(&plan));
            let indices: Vec<usize> = plan.iter().map(|step| step.index).collect();
            assert_eq!(places, indices);
        }
    }
    assert_eq!(display_order(&[FrameType::BFrame, FrameType::IFrame]), vec![0, 1]);
    assert_eq!(
        display_order(&[FrameType::IFrame, FrameType::BFrame, FrameType::BFrame]),
        vec![2, 0, 1]
    );
}

#[test]
fn frame_types_have_codes() {
    assert_eq!(FrameType::IFrame.code(), 0);
    assert_eq!(FrameType::PFrame.code(), 1);
    assert_eq!(FrameType::BFrame.code(), 2);
    assert_eq!(FrameType::from_code(0), Some(FrameType::IFrame));
    assert_eq!(FrameType::from_code(1), Some(FrameType::PFrame));
    assert_eq!(FrameType::from_code(2), Some(FrameType::BFrame));
    for byte in 3..=255u8 {
        assert_eq!(FrameType::from_code(byte), None);
    }
}

#[test]
fn the_slots_hold_the_supports_of_each_frame() {
    let mut slots = ReferenceSlots::new();
    assert_eq!(slots, ReferenceSlots { prev: None, next: None });
    slots.update(FrameType::IFrame, 0);
    assert_eq!(slots, ReferenceSlots { prev: None, next: Some(0) });
    slots.update(FrameType::PFrame, 3);
    assert_eq!(slots, ReferenceSlots { prev: Some(0), next: Some(3) });
    slots.update(FrameType::BFrame, 1);
    assert_eq!(slots, ReferenceSlots { prev: Some(0), next: Some(3) });
    for count in 0..100usize {
        let mut slots = ReferenceSlots::new();
        for step in schedule(count, false) {
            match step.frame_type {
                FrameType::IFrame => {}
                FrameType::PFrame => assert_eq!(slots.next, Some(step.prev)),
                FrameType::BFrame => {
                    assert_eq!(slots.prev, Some(step.prev));
                    assert_eq!(slots.next, Some(step.next));
                }
            }
            slots.update(step.frame_type, step.index);
        }
    }
}
