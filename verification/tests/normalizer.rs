use dms_viewer::color::Color;
use dms_viewer::Normalizer;

#[test]
fn zero_is_white_in_both_notations() {
    let scale = Normalizer { max_abs: 2_000_000_000 };
    assert_eq!(scale.get_color_rgb(0), "rgb(255,255,255)");
    assert_eq!(scale.get_color_hex(0), "#FFFFFF");
}

#[test]
fn scale_of_no_extent_is_white_for_every_value() {
    let scale = Normalizer { max_abs: 0 };
    for value in [i64::MIN, -5, 0, 1, 123_456_789, i64::MAX] {
        assert_eq!(scale.get_color_rgb(value), "rgb(255,255,255)");
        assert_eq!(scale.get_color_hex(value), "#FFFFFF");
    }
}

#[test]
fn negative_values_fade_towards_red() {
    let scale = Normalizer { max_abs: 1000 };
    // (1 - 0.5) * 255 = 127.5, which rounds up.
    assert_eq!(scale.get_color_rgb(-500), "rgb(255,128,128)");
    assert_eq!(scale.get_color_hex(-500), "#FF8080");
    assert_eq!(scale.get_color_rgb(-1000), "rgb(255,0,0)");
    assert_eq!(scale.get_color_hex(-1000), "#FF0000");
}

#[test]
fn positive_values_fade_towards_blue() {
    let scale = Normalizer { max_abs: 1000 };
    // (1 - 0.25) * 255 = 191.25
    assert_eq!(scale.get_color_rgb(250), "rgb(191,191,255)");
    assert_eq!(scale.get_color_hex(250), "#BFBFFF");
    // (1 - 0.007) * 255 = 253.215
    assert_eq!(scale.get_color_rgb(7), "rgb(253,253,255)");
    assert_eq!(scale.get_color_hex(7), "#FDFDFF");
    // (1 - 0.98) * 255 = 5.1
    assert_eq!(scale.get_color_rgb(980), "rgb(5,5,255)");
    assert_eq!(scale.get_color_hex(980), "#0505FF");
    // (1 - 0.9) * 255 = 25.5, which rounds up.
    assert_eq!(scale.get_color_rgb(900), "rgb(26,26,255)");
    assert_eq!(scale.get_color_hex(900), "#1A1AFF");
    assert_eq!(scale.get_color_rgb(1000), "rgb(0,0,255)");
    assert_eq!(scale.get_color_hex(1000), "#0000FF");
}

#[test]
fn values_past_the_scale_are_saturated() {
    let scale = Normalizer { max_abs: 1000 };
    assert_eq!(scale.get_color_rgb(5000), "rgb(0,0,255)");
    assert_eq!(scale.get_color_rgb(-5000), "rgb(255,0,0)");
    assert_eq!(scale.get_color_hex(i64::MAX), "#0000FF");
    assert_eq!(scale.get_color_hex(i64::MIN), "#FF0000");
}

#[test]
fn a_value_and_its_negative_are_mirror_images() {
    let scale = Normalizer { max_abs: 777 };
    for value in [0i64, 1, 2, 76, 388, 389, 500, 776, 777] {
        let plus = scale.color_for(value);
        let minus = scale.color_for(-value);
        assert_eq!(plus.red, minus.blue);
        assert_eq!(plus.blue, minus.red);
        assert_eq!(plus.green, minus.green);
    }
}

#[test]
fn the_same_inputs_give_the_same_text() {
    let one = Normalizer { max_abs: 31_415 };
    let other = Normalizer { max_abs: 31_415 };
    for value in [-31_415i64, -100, 0, 27, 31_000] {
        assert_eq!(one.get_color_rgb(value), one.get_color_rgb(value));
        assert_eq!(one.get_color_hex(value), other.get_color_hex(value));
    }
}

#[test]
fn both_notations_write_the_same_channels() {
    let scale = Normalizer { max_abs: 255 };
    for value in -255i64..=255 {
        let color = scale.color_for(value);
        let rgb = format!("rgb({},{},{})", color.red, color.green, color.blue);
        let hex = format!("#{:02X}{:02X}{:02X}", color.red, color.green, color.blue);
        assert_eq!(scale.get_color_rgb(value), rgb);
        assert_eq!(scale.get_color_hex(value), hex);
    }
}

#[test]
fn colour_texts_of_a_colour() {
    let color = Color { red: 9, green: 10, blue: 100 };
    assert_eq!(color.to_rgb(), "rgb(9,10,100)");
    assert_eq!(color.to_hex(), "#090A64");
}

#[test]
fn the_whole_range_of_64_bits_is_a_scale() {
    let scale = Normalizer { max_abs: 1u64 << 63 };
    assert_eq!(scale.get_color_rgb(i64::MIN), "rgb(255,0,0)");
    assert_eq!(scale.get_color_rgb(0), "rgb(255,255,255)");
    // Half of the scale.
    assert_eq!(scale.get_color_rgb(1i64 << 62), "rgb(128,128,255)");
}
