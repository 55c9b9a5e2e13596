use minesweeper::seven_segment::{
    get_images, get_texture_coords, Display, Image, DIGITS_PER_DISPLAY, DIGIT_HEIGHT, DIGIT_WIDTH,
};

#[test]
fn digit_images() {
    assert_eq!(Image::from_value(0), Image::Zero);
    assert_eq!(Image::from_value(1), Image::One);
    assert_eq!(Image::from_value(2), Image::Two);
    assert_eq!(Image::from_value(3), Image::Three);
    assert_eq!(Image::from_value(4), Image::Four);
    assert_eq!(Image::from_value(5), Image::Five);
    assert_eq!(Image::from_value(6), Image::Six);
    assert_eq!(Image::from_value(7), Image::Seven);
    assert_eq!(Image::from_value(8), Image::Eight);
    assert_eq!(Image::from_value(9), Image::Nine);
}

#[test]
fn digit_images_in_the_picture() {
    assert_eq!(Image::get_tex_coords(&Image::Zero), [0, 0]);
    assert_eq!(Image::get_tex_coords(&Image::One), [13, 0]);
    assert_eq!(Image::get_tex_coords(&Image::Two), [26, 0]);
    assert_eq!(Image::get_tex_coords(&Image::Three), [39, 0]);
    assert_eq!(Image::get_tex_coords(&Image::Four), [0, 23]);
    assert_eq!(Image::get_tex_coords(&Image::Five), [13, 23]);
    assert_eq!(Image::get_tex_coords(&Image::Six), [26, 23]);
    assert_eq!(Image::get_tex_coords(&Image::Seven), [39, 23]);
    assert_eq!(Image::get_tex_coords(&Image::Eight), [0, 46]);
    assert_eq!(Image::get_tex_coords(&Image::Nine), [13, 46]);
    assert_eq!(Image::get_tex_coords(&Image::Blank), [26, 46]);
    assert_eq!(Image::get_tex_coords(&Image::Negative), [39, 46]);
    assert_eq!(DIGIT_WIDTH, 13);
    assert_eq!(DIGIT_HEIGHT, 23);
    assert_eq!(DIGITS_PER_DISPLAY, 3);
}

#[test]
fn small_numbers_stand_at_the_right() {
    assert_eq!(get_images(0), [Image::Blank, Image::Blank, Image::Zero]);
    assert_eq!(get_images(7), [Image::Blank, Image::Blank, Image::Seven]);
    assert_eq!(get_images(9), [Image::Blank, Image::Blank, Image::Nine]);
    assert_eq!(get_images(10), [Image::Blank, Image::One, Image::Zero]);
    assert_eq!(get_images(42), [Image::Blank, Image::Four, Image::Two]);
    assert_eq!(get_images(99), [Image::Blank, Image::Nine, Image::Nine]);
}

#[test]
fn three_digit_numbers_fill_the_display() {
    assert_eq!(get_images(100), [Image::One, Image::Zero, Image::Zero]);
    assert_eq!(get_images(256), [Image::Two, Image::Five, Image::Six]);
    assert_eq!(get_images(300), [Image::Three, Image::Zero, Image::Zero]);
    assert_eq!(get_images(507), [Image::Five, Image::Zero, Image::Seven]);
    assert_eq!(get_images(998), [Image::Nine, Image::Nine, Image::Eight]);
}

#[test]
fn large_numbers_show_as_999() {
    assert_eq!(get_images(999), [Image::Nine, Image::Nine, Image::Nine]);
    assert_eq!(get_images(1000), [Image::Nine, Image::Nine, Image::Nine]);
    assert_eq!(get_images(i32::MAX), [Image::Nine, Image::Nine, Image::Nine]);
}

#[test]
fn negative_numbers_carry_a_minus_sign() {
    assert_eq!(get_images(-1), [Image::Blank, Image::Negative, Image::One]);
    assert_eq!(get_images(-9), [Image::Blank, Image::Negative, Image::Nine]);
    assert_eq!(get_images(-10), [Image::Negative, Image::One, Image::Zero]);
    assert_eq!(get_images(-57), [Image::Negative, Image::Five, Image::Seven]);
    assert_eq!(get_images(-98), [Image::Negative, Image::Nine, Image::Eight]);
}

#[test]
fn very_negative_numbers_show_as_minus_99() {
    assert_eq!(get_images(-99), [Image::Negative, Image::Nine, Image::Nine]);
    assert_eq!(get_images(-100), [Image::Negative, Image::Nine, Image::Nine]);
    assert_eq!(get_images(i32::MIN), [Image::Negative, Image::Nine, Image::Nine]);
}

#[test]
fn every_number_in_range_shows_its_digits() {
    for value in 0..999i32 {
        let images = get_images(value);
        assert_eq!(images[2], Image::from_value((value % 10) as u8));
        if value >= 10 {
            assert_eq!(images[1], Image::from_value((value / 10 % 10) as u8));
        } else {
            assert_eq!(images[1], Image::Blank);
        }
        if value >= 100 {
            assert_eq!(images[0], Image::from_value((value / 100) as u8));
        } else {
            assert_eq!(images[0], Image::Blank);
        }
    }
}

#[test]
fn texture_coords_of_a_number() {
    assert_eq!(get_texture_coords(0), [[26, 46], [26, 46], [0, 0]]);
    assert_eq!(get_texture_coords(20), [[26, 46], [26, 0], [0, 0]]);
    assert_eq!(get_texture_coords(-3), [[26, 46], [39, 46], [39, 0]]);
    assert_eq!(get_texture_coords(-45), [[39, 46], [0, 23], [13, 23]]);
    assert_eq!(get_texture_coords(678), [[26, 23], [39, 23], [0, 46]]);
    assert_eq!(get_texture_coords(5000), [[13, 46], [13, 46], [13, 46]]);
}

#[test]
fn the_two_displays_differ() {
    assert_ne!(Display::MinesUnflagged, Display::Timer);
}
