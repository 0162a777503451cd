use sprite_anim::{AnimatedKeyframes, EmptyScheduleError};

fn sample() -> AnimatedKeyframes {
    AnimatedKeyframes::new(vec![(0..15, 500), (15..29, 2000), (29..30, 4000)]).unwrap()
}

#[test]
fn sample_schedule_lookups() {
    let k = sample();
    assert_eq!(k.period(), 6483);
    assert_eq!(k.frame_of_animation(0), 0);
    assert_eq!(k.frame_of_animation(33), 1);
    assert_eq!(k.frame_of_animation(4001), 29);
    assert_eq!(k.frame_of_animation(6482), 29);
    assert_eq!(k.frame_of_animation(6483), 0);
    assert_eq!(k.frame_of_animation(6484), 0);
    assert_eq!(k.frame_of_animation(12965), 29);
    assert_eq!(k.frame_of_animation(12966), 0);
}

#[test]
fn table_has_one_increasing_entry_per_frame() {
    let k = sample();
    assert_eq!(k.keyframes.len(), 30);
    for w in k.keyframes.windows(2) {
        assert!(w[0].0 < w[1].0);
    }
    for (i, e) in k.keyframes.iter().enumerate() {
        assert_eq!(e.1, i);
    }
    assert_eq!(k.keyframes.last().unwrap().1, 29);
}

#[test]
fn lookup_is_periodic() {
    let k = sample();
    for t in [0u64, 1, 32, 33, 500, 2482, 2483, 6000, 6482] {
        let f = k.frame_of_animation(t);
        assert!(f < 30);
        for n in 1..4u64 {
            assert_eq!(k.frame_of_animation(t + n * 6483), f);
        }
    }
}

#[test]
fn boundary_belongs_to_next_frame() {
    let k = sample();
    for i in 0..k.keyframes.len() {
        let (c, f) = k.keyframes[i];
        assert_eq!(k.frame_of_animation(c - 1), f);
        let next = k.keyframes[(i + 1) % k.keyframes.len()].1;
        assert_eq!(k.frame_of_animation(c), next);
    }
}

#[test]
fn repeated_lookups_agree() {
    let k = sample();
    for t in [0u64, 100, 6483, 99999] {
        let a = k.frame_of_animation(t);
        let b = k.frame_of_animation(t);
        assert_eq!(a, b);
    }
}

#[test]
fn smooth_schedule_divides_evenly() {
    let k = AnimatedKeyframes::new_smooth(4, 1000).unwrap();
    assert_eq!(k.keyframes, vec![(250, 0), (500, 1), (750, 2), (1000, 3)]);
    assert_eq!(k.frame_of_animation(249), 0);
    assert_eq!(k.frame_of_animation(250), 1);
    assert_eq!(k.frame_of_animation(1750), 3);
}

#[test]
fn per_frame_time_is_truncated_and_chained() {
    let k = AnimatedKeyframes::new(vec![(0..3, 10), (3..5, 7)]).unwrap();
    assert_eq!(k.keyframes, vec![(3, 0), (6, 1), (9, 2), (12, 3), (15, 4)]);
    assert_eq!(k.period(), 15);
}

#[test]
fn empty_segments_are_rejected() {
    assert_eq!(AnimatedKeyframes::new(vec![]).err(), Some(EmptyScheduleError));
    assert_eq!(AnimatedKeyframes::new(vec![(3..3, 100)]).err(), Some(EmptyScheduleError));
    assert_eq!(AnimatedKeyframes::new_smooth(0, 100).err(), Some(EmptyScheduleError));
}

#[test]
fn empty_range_between_segments_adds_nothing() {
    let k = AnimatedKeyframes::new(vec![(0..2, 100), (2..2, 500), (2..3, 30)]).unwrap();
    assert_eq!(k.keyframes, vec![(50, 0), (100, 1), (130, 2)]);
}

#[test]
fn zero_duration_gives_zero_period() {
    let k = AnimatedKeyframes::new_smooth(3, 0).unwrap();
    assert_eq!(k.period(), 0);
}
