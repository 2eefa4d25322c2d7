use alander::resources::get_texture_from_index;
use alander::scene::MaterialData;
use alander::text::parse_usize;
use std::collections::HashMap;

fn material(base: Option<&str>, normal: Option<&str>) -> MaterialData {
    let mut m = MaterialData::default();
    m.base_color_texture = base.map(|s| s.to_string());
    m.normal_texture = normal.map(|s| s.to_string());
    m
}

#[test]
fn texture_lookup() {
    let materials = vec![material(Some("0"), Some("1")), material(Some("7"), None)];
    let image_to_texture: HashMap<usize, usize> = [(0, 10), (1, 11), (7, 17)].into_iter().collect();
    let textures: HashMap<usize, &str> = [(10, "a"), (11, "b")].into_iter().collect();
    assert_eq!(get_texture_from_index(&materials, Some(0), &image_to_texture, &textures, 0), Some(10));
    assert_eq!(get_texture_from_index(&materials, Some(0), &image_to_texture, &textures, 1), Some(11));
    assert_eq!(get_texture_from_index(&materials, Some(0), &image_to_texture, &textures, 2), None);
    assert_eq!(get_texture_from_index(&materials, Some(0), &image_to_texture, &textures, 3), None);
    // image 7 maps to texture 17, which does not exist
    assert_eq!(get_texture_from_index(&materials, Some(1), &image_to_texture, &textures, 0), None);
    assert_eq!(get_texture_from_index(&materials, Some(5), &image_to_texture, &textures, 0), None);
    assert_eq!(get_texture_from_index(&materials, None, &image_to_texture, &textures, 0), None);
}

#[test]
fn texture_name_must_be_a_number() {
    let materials = vec![material(Some("x1"), None)];
    let image_to_texture: HashMap<usize, usize> = [(1, 1)].into_iter().collect();
    let textures: HashMap<usize, ()> = [(1, ())].into_iter().collect();
    assert_eq!(get_texture_from_index(&materials, Some(0), &image_to_texture, &textures, 0), None);
}

#[test]
fn parse_like_std() {
    for s in ["0", "12", "+7", "007", "", "+", "-1", "1a", " 1", "18446744073709551615", "18446744073709551616", "99999999999999999999999"] {
        assert_eq!(parse_usize(s), s.parse::<usize>().ok(), "input {:?}", s);
    }
}
