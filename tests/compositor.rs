use sprite_anim::{compose_rect, AtlasLayout, Rect};

fn r(a: i64, b: i64, c: i64, d: i64) -> Rect {
    Rect { min_x: a, min_y: b, max_x: c, max_y: d }
}

#[test]
fn manual_rect_is_relative_to_atlas_cell() {
    let a = r(10, 10, 20, 20);
    let m = r(1, 1, 3, 3);
    assert_eq!(compose_rect(Some(a), Some(m)), Some(r(11, 11, 13, 13)));
    assert_eq!(compose_rect(Some(a), None), Some(a));
    assert_eq!(compose_rect(None, Some(m)), Some(m));
    assert_eq!(compose_rect(None, None), None);
}

#[test]
fn zero_manual_rect_on_point_cell() {
    let a = r(7, 9, 7, 9);
    assert_eq!(compose_rect(Some(a), Some(r(0, 0, 0, 0))), Some(a));
    let wide = r(10, 10, 20, 20);
    assert_eq!(compose_rect(Some(wide), Some(r(0, 0, 0, 0))), Some(r(10, 10, 10, 10)));
}

#[test]
fn translation_stops_at_integer_bounds() {
    let a = r(i64::MAX - 1, i64::MIN + 1, 0, 0);
    let m = r(5, -5, 1, -1);
    assert_eq!(compose_rect(Some(a), Some(m)), Some(r(i64::MAX, i64::MIN, i64::MAX, i64::MIN)));
}

#[test]
fn layout_lookup_out_of_range_is_none() {
    let layout = AtlasLayout { textures: vec![r(0, 0, 8, 8), r(8, 0, 16, 8)] };
    assert_eq!(layout.texture_rect(1), Some(r(8, 0, 16, 8)));
    assert_eq!(layout.texture_rect(2), None);
}
