use rwal::colors::adjust::invert_for_light;
use rwal::colors::types::Rgb;

#[test]
fn test_invert_swaps_color0_and_color15() {
    let mut colors = [Rgb::new(0, 0, 0); 16];
    colors[0] = Rgb::new(10, 10, 10);
    colors[15] = Rgb::new(240, 240, 240);

    let result = invert_for_light(&colors);
    assert_eq!(result[0], Rgb::new(240, 240, 240));
    assert_eq!(result[15], Rgb::new(10, 10, 10));
}

#[test]
fn test_invert_swaps_color7_and_color8() {
    let mut colors = [Rgb::new(0, 0, 0); 16];
    colors[7] = Rgb::new(200, 200, 200);
    colors[8] = Rgb::new(80, 80, 80);

    let result = invert_for_light(&colors);
    assert_eq!(result[7], Rgb::new(80, 80, 80));
    assert_eq!(result[8], Rgb::new(200, 200, 200));
}

#[test]
fn test_invert_does_not_touch_other_slots() {
    let mut colors = [Rgb::new(0, 0, 0); 16];
    colors[3] = Rgb::new(99, 88, 77);

    let result = invert_for_light(&colors);
    assert_eq!(result[3], Rgb::new(99, 88, 77));
}

#[test]
fn test_invert_twice_is_identity() {
    let mut colors = [Rgb::new(0, 0, 0); 16];
    colors[0] = Rgb::new(10, 10, 10);
    colors[7] = Rgb::new(200, 200, 200);
    colors[8] = Rgb::new(80, 80, 80);
    colors[15] = Rgb::new(240, 240, 240);

    let result = invert_for_light(&invert_for_light(&colors));
    assert_eq!(result, colors);
}

#[test]
fn invert_every_slot_distinct() {
    let colors: [Rgb; 16] = std::array::from_fn(|i| Rgb::new(i as u8, 0, 0));
    let result = invert_for_light(&colors);
    for i in 0..16 {
        let from = match i {
            0 => 15,
            15 => 0,
            7 => 8,
            8 => 7,
            k => k,
        };
        assert_eq!(result[i], colors[from]);
    }
}
