use sprite_anim::AnimatedKeyframes;

#[test]
fn test_animation() {
    let frequency = AnimatedKeyframes::new(vec![(0..15, 500), (15..29, 2000), (29..30, 4000)]).unwrap();
    assert_eq!(
        frequency.keyframes,
        vec![
            (33, 0),
            (66, 1),
            (99, 2),
            (132, 3),
            (165, 4),
            (198, 5),
            (231, 6),
            (264, 7),
            (297, 8),
            (330, 9),
            (363, 10),
            (396, 11),
            (429, 12),
            (462, 13),
            (495, 14),
            (637, 15),
            (779, 16),
            (921, 17),
            (1063, 18),
            (1205, 19),
            (1347, 20),
            (1489, 21),
            (1631, 22),
            (1773, 23),
            (1915, 24),
            (2057, 25),
            (2199, 26),
            (2341, 27),
            (2483, 28),
            (6483, 29)
        ]
    );
    let test_data: [(u64, usize); 11] = [
        (0, 0),
        (33, 1),
        (66, 2),
        (99, 3),
        (4001, 29),
        (6483 - 1, 29),
        (6483, 0),
        (6483 + 1, 0),
        ((2 * 6483) - 1, 29),
        (2 * 6483, 0),
        ((2 * 6483) + 1, 0),
    ];
    for (ts, expected_frame) in test_data {
        let actual = frequency.frame_of_animation(ts);
        assert_eq!(actual, expected_frame, "Wrong frame at {} ms", ts);
    }
}
