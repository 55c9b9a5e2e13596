//! The two displays of three digits each: which digit images show a number,
//! and where those images lie in the picture that holds them all.

use vstd::prelude::*;

verus! {

/// The width of a digit image, in pixels.
pub const DIGIT_WIDTH: u16 = 13;

/// The height of a digit image, in pixels.
pub const DIGIT_HEIGHT: u16 = 23;

/// The number of digits of a display.
pub const DIGITS_PER_DISPLAY: usize = 3;

/// The two displays.
#[derive(Clone, Copy, Debug, PartialEq, Eq, Structural)]
pub enum Display {
    /// The number of mines that have no flag yet.
    MinesUnflagged,
    /// The seconds since the game began.
    Timer,
}

/// What one place of a display can show.
#[derive(Clone, Copy, Debug, PartialEq, Eq, Structural)]
pub enum Image {
    Blank,
    Zero,
    One,
    Two,
    Three,
    Four,
    Five,
    Six,
    Seven,
    Eight,
    Nine,
    Negative,
}

impl Image {
    /// The image of the digit `value`, for `value` from 0 to 9.
    pub open spec fn digit(value: int) -> Image {
        if value == 0 {
            Image::Zero
        } else if value == 1 {
            Image::One
        } else if value == 2 {
            Image::Two
        } else if value == 3 {
            Image::Three
        } else if value == 4 {
            Image::Four
        } else if value == 5 {
            Image::Five
        } else if value == 6 {
            Image::Six
        } else if value == 7 {
            Image::Seven
        } else if value == 8 {
            Image::Eight
        } else {
            Image::Nine
        }
    }

    /// The place of the image in the picture of all digit images, which holds
    /// them in rows of four: the digits in their order, then the blank, then
    /// the minus sign.
    pub open spec fn slot(self) -> nat {
        match self {
            Image::Zero => 0,
            Image::One => 1,
            Image::Two => 2,
            Image::Three => 3,
            Image::Four => 4,
            Image::Five => 5,
            Image::Six => 6,
            Image::Seven => 7,
            Image::Eight => 8,
            Image::Nine => 9,
            Image::Blank => 10,
            Image::Negative => 11,
        }
    }

    /// The image of a digit.
    pub fn from_value(value: u8) -> (image: Image)
        requires
            value <= 9,
        ensures
            image == Image::digit(value as int),
    {
        match value {
            0 => Image::Zero,
            1 => Image::One,
            2 => Image::Two,
            3 => Image::Three,
            4 => Image::Four,
            5 => Image::Five,
            6 => Image::Six,
            7 => Image::Seven,
            8 => Image::Eight,
            _ => Image::Nine,
        }
    }

    /// Where the image lies in the picture of all digit images: the pixel
    /// column and row of its upper left corner.
    pub fn get_tex_coords(image: &Image) -> (coords: [u16; 2])
        ensures
            coords@[0] == (image.slot() % 4) * DIGIT_WIDTH,
            coords@[1] == (image.slot() / 4) * DIGIT_HEIGHT,
    {
        match image {
            Image::Zero => [0 * DIGIT_WIDTH, 0 * DIGIT_HEIGHT],
            Image::One => [1 * DIGIT_WIDTH, 0 * DIGIT_HEIGHT],
            Image::Two => [2 * DIGIT_WIDTH, 0 * DIGIT_HEIGHT],
            Image::Three => [3 * DIGIT_WIDTH, 0 * DIGIT_HEIGHT],
            Image::Four => [0 * DIGIT_WIDTH, 1 * DIGIT_HEIGHT],
            Image::Five => [1 * DIGIT_WIDTH, 1 * DIGIT_HEIGHT],
            Image::Six => [2 * DIGIT_WIDTH, 1 * DIGIT_HEIGHT],
            Image::Seven => [3 * DIGIT_WIDTH, 1 * DIGIT_HEIGHT],
            Image::Eight => [0 * DIGIT_WIDTH, 2 * DIGIT_HEIGHT],
            Image::Nine => [1 * DIGIT_WIDTH, 2 * DIGIT_HEIGHT],
            Image::Blank => [2 * DIGIT_WIDTH, 2 * DIGIT_HEIGHT],
            Image::Negative => [3 * DIGIT_WIDTH, 2 * DIGIT_HEIGHT],
        }
    }
}

/// What a display shows for `val`, from the left. A number from 999 on shows
/// as 999 and one down from -99 as -99. Otherwise the number stands at the
/// right, without leading zeros, a minus sign stands before a negative number,
/// and the places left of that are blank.
pub open spec fn shown(val: int) -> Seq<Image> {
    if val >= 999 {
        seq![Image::Nine, Image::Nine, Image::Nine]
    } else if val <= -99 {
        seq![Image::Negative, Image::Nine, Image::Nine]
    } else {
        let size = if val < 0 {
            -val
        } else {
            val
        };
        seq![
            if size > 9 && val < 0 {
                Image::Negative
            } else if val < 0 || size < 100 {
                Image::Blank
            } else {
                Image::digit(size / 100)
            },
            if size > 9 {
                Image::digit(size / 10 % 10)
            } else if val < 0 {
                Image::Negative
            } else {
                Image::Blank
            },
            Image::digit(size % 10),
        ]
    }
}

/// `num_traits::abs`, which `cgmath` hands on, for an `i32`: the number without
/// its sign. The smallest `i32` has no such number and is left out.
#[verifier::external_body]
fn abs(value: i32) -> (size: i32)
    requires
        value > i32::MIN,
    ensures
        size == if value < 0 {
            -value
        } else {
            value as int
        },
{
    cgmath::num_traits::abs(value)
}

/// The images that a display shows for `val`, from the left.
pub fn get_images(val: i32) -> (images: [Image; 3])
    ensures
        images@ == shown(val as int),
{
    if val >= 999 {
        let images = [Image::Nine, Image::Nine, Image::Nine];
        assert(images@ =~= shown(val as int));
        images
    } else if val <= -99 {
        let images = [Image::Negative, Image::Nine, Image::Nine];
        assert(images@ =~= shown(val as int));
        images
    } else {
        let size = abs(val);
        let mag_val = size as u16 % 999;
        assert(mag_val == size);
        let digit_100s = (mag_val / 100) as u8;
        let digit_10s = (mag_val / 10) as u8 % 10;
        let digit_1s = (mag_val % 10) as u8;
        assert(digit_100s == size / 100 && digit_10s == size / 10 % 10 && digit_1s == size % 10);
        let result_1s = Image::from_value(digit_1s);
        let result_10s = if mag_val > 9 {
            Image::from_value(digit_10s)
        } else if val < 0 {
            Image::Negative
        } else {
            Image::Blank
        };
        let result_100s = if mag_val > 9 && val < 0 {
            Image::Negative
        } else if val < 0 || mag_val < 100 {
            Image::Blank
        } else {
            Image::from_value(digit_100s)
        };
        let images = [result_100s, result_10s, result_1s];
        proof {
            let wanted = shown(val as int);
            assert(wanted.len() == 3);
            assert(images@[0] == wanted[0]);
            assert(images@[1] == wanted[1]);
            assert(images@[2] == wanted[2]);
            assert(images@ =~= wanted);
        }
        images
    }
}

/// Where the images that a display shows for `val` lie in the picture of all
/// digit images, from the left.
pub fn get_texture_coords(val: i32) -> (coords: [[u16; 2]; 3])
    ensures
        forall|place: int|
            0 <= place < 3 ==> (#[trigger] coords@[place])@[0] == (shown(val as int)[place].slot()
                % 4) * DIGIT_WIDTH && coords@[place]@[1] == (shown(val as int)[place].slot() / 4)
                * DIGIT_HEIGHT,
{
    let images = get_images(val);
    [
        Image::get_tex_coords(&images[0]),
        Image::get_tex_coords(&images[1]),
        Image::get_tex_coords(&images[2]),
    ]
}

} // verus!
