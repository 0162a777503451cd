use sprite_anim::extract::{animation_frame, atlas_rect, resolve_rect};
use sprite_anim::{
    AnimatedKeyframes, AnimatedSprite, AtlasLayout, ExtractedKind, ExtractedSprite, Rect,
    SpriteInput, TextureAtlas,
};

fn r(a: i64, b: i64, c: i64, d: i64) -> Rect {
    Rect { min_x: a, min_y: b, max_x: c, max_y: d }
}

fn layouts() -> Vec<AtlasLayout> {
    vec![AtlasLayout { textures: (0..4).map(|i| r(i * 10, 0, i * 10 + 10, 10)).collect() }]
}

fn schedules() -> Vec<AnimatedKeyframes> {
    vec![AnimatedKeyframes::new_smooth(4, 400).unwrap()]
}

fn plain(atlas: Option<TextureAtlas>, anim: Option<AnimatedSprite>) -> SpriteInput {
    SpriteInput { visible: true, texture_atlas: atlas, rect: None, animation: anim, slice_count: None }
}

#[test]
fn animation_overrides_static_index() {
    let s = plain(
        Some(TextureAtlas { layout: 0, index: 0 }),
        Some(AnimatedSprite { offset_ms: 100, animation_ref: 0 }),
    );
    // 150 + 100 ms falls in frame 2.
    assert_eq!(atlas_rect(&s, &layouts(), &schedules(), 150), Some(r(20, 0, 30, 10)));
}

#[test]
fn static_index_without_animation() {
    let s = plain(Some(TextureAtlas { layout: 0, index: 3 }), None);
    assert_eq!(atlas_rect(&s, &layouts(), &schedules(), 150), Some(r(30, 0, 40, 10)));
    let out = plain(Some(TextureAtlas { layout: 0, index: 9 }), None);
    assert_eq!(atlas_rect(&out, &layouts(), &schedules(), 150), None);
    let no_layout = plain(Some(TextureAtlas { layout: 5, index: 0 }), None);
    assert_eq!(atlas_rect(&no_layout, &layouts(), &schedules(), 150), None);
}

#[test]
fn dangling_reference_falls_back_to_static_index() {
    let anim = AnimatedSprite { offset_ms: 0, animation_ref: 7 };
    assert_eq!(animation_frame(&schedules(), &anim, 150), None);
    let s = plain(Some(TextureAtlas { layout: 0, index: 1 }), Some(anim));
    assert_eq!(atlas_rect(&s, &layouts(), &schedules(), 150), Some(r(10, 0, 20, 10)));
}

#[test]
fn animated_cell_with_manual_rect() {
    let mut s = plain(
        Some(TextureAtlas { layout: 0, index: 0 }),
        Some(AnimatedSprite { offset_ms: 0, animation_ref: 0 }),
    );
    s.rect = Some(r(1, 2, 3, 4));
    assert_eq!(resolve_rect(&s, &layouts(), &schedules(), 350), Some(r(31, 2, 33, 4)));
    let bare = plain(None, Some(AnimatedSprite { offset_ms: 0, animation_ref: 0 }));
    assert_eq!(resolve_rect(&bare, &layouts(), &schedules(), 350), None);
}

#[test]
fn pass_skips_hidden_and_numbers_slices() {
    let mut hidden = plain(Some(TextureAtlas { layout: 0, index: 1 }), None);
    hidden.visible = false;
    let mut sliced = plain(None, None);
    sliced.slice_count = Some(3);
    let mut sliced2 = plain(None, None);
    sliced2.slice_count = Some(2);
    let single = plain(Some(TextureAtlas { layout: 0, index: 1 }), None);
    let sprites = vec![hidden, sliced, single, sliced2];
    let out = sprite_anim::extract::my_extract_sprites_with_anime(&sprites, &layouts(), &schedules(), 0);
    assert_eq!(
        out,
        vec![
            ExtractedSprite { source: 1, kind: ExtractedKind::Slices { start: 0, end: 3 } },
            ExtractedSprite { source: 2, kind: ExtractedKind::Single { rect: Some(r(10, 0, 20, 10)) } },
            ExtractedSprite { source: 3, kind: ExtractedKind::Slices { start: 3, end: 5 } },
        ]
    );
}
