use ppmp6::Pixel;

#[test]
fn new_keeps_the_three_channels() {
    let p = Pixel::new(250, 80, 10);
    assert_eq!(p.r, 250);
    assert_eq!(p.g, 80);
    assert_eq!(p.b, 10);
}

#[test]
fn black_is_one_in_every_channel() {
    assert_eq!(Pixel::black(), Pixel::new(1, 1, 1));
}

#[test]
fn black_differs_from_a_bar_colour() {
    assert_ne!(Pixel::black(), Pixel::new(255, 0, 0));
}

#[test]
fn default_is_zero_in_every_channel() {
    assert_eq!(Pixel::default(), Pixel::new(0, 0, 0));
}

#[test]
fn pixels_compare_channel_by_channel() {
    assert_eq!(Pixel::new(1, 2, 3), Pixel::new(1, 2, 3));
    assert_ne!(Pixel::new(1, 2, 3), Pixel::new(9, 2, 3));
    assert_ne!(Pixel::new(1, 2, 3), Pixel::new(1, 9, 3));
    assert_ne!(Pixel::new(1, 2, 3), Pixel::new(1, 2, 9));
}

#[test]
fn pixels_are_copied() {
    let p = Pixel::new(4, 5, 6);
    let q = p;
    assert_eq!(p, q);
    assert_eq!(format!("{:?}", q), "Pixel { r: 4, g: 5, b: 6 }");
}
