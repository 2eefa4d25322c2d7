use alander::lights::LightBuffer;

#[test]
fn four_lights_then_refused() {
    let mut b = LightBuffer::new('d', 0u8);
    for i in 1..=4u8 {
        assert!(b.add_light(i));
    }
    assert!(!b.add_light(5));
    assert_eq!(b.light_count, 4);
    assert_eq!(b.lights, [1, 2, 3, 4]);
    b.clear_lights();
    assert_eq!(b.light_count, 0);
    assert!(b.add_light(9));
    assert_eq!(b.lights, [9, 2, 3, 4]);
    assert_eq!(b.dir_light, 'd');
}

#[test]
fn set_light_by_index() {
    let mut b = LightBuffer::new((), 0i32);
    assert!(b.set_light(3, 7));
    assert!(!b.set_light(4, 8));
    assert_eq!(b.lights, [0, 0, 0, 7]);
    assert_eq!(b.light_count, 0);
}

#[test]
fn overfull_count_is_refused_unchanged() {
    let mut b = LightBuffer::new((), 0u8);
    b.light_count = 7;
    assert!(!b.add_light(1));
    assert_eq!(b.light_count, 7);
    assert_eq!(b.lights, [0, 0, 0, 0]);
}
