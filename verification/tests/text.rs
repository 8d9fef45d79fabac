use hex_picker::color::Color;
use hex_picker::data::{Data, Output};
use hex_picker::text::{
    hex_css, hsl_css, hsv_css, ori_hex, ori_hsl, ori_hsv, ori_rgb, output, rgb_css, round,
};

fn pink() -> Data {
    let mut data = Data::default();
    data.color = Color::from_hex("#cc85c5").unwrap();
    data
}

#[test]
fn round_to_decimals() {
    assert_eq!(round(33_333_000, 1), 33_300_000);
    assert_eq!(round(33_333_000, 0), 33_000_000);
    assert_eq!(round(33_333_000, 2), 33_330_000);
    assert_eq!(round(33_333_333, 5), 33_333_330);
    assert_eq!(round(33_333_333, 6), 33_333_333);
    assert_eq!(round(33_333_333, 9), 33_333_333);
    assert_eq!(round(0, 1), 0);
}

#[test]
fn round_halves_away_from_zero() {
    assert_eq!(round(250_000, 1), 300_000);
    assert_eq!(round(-250_000, 1), -300_000);
    assert_eq!(round(249_999, 1), 200_000);
    assert_eq!(round(-249_999, 1), -200_000);
    assert_eq!(round(500_000, 0), 1_000_000);
    assert_eq!(round(-500_000, 0), -1_000_000);
    assert_eq!(round(-1_500_000, 0), -2_000_000);
    assert_eq!(round(2_500_000, 0), 3_000_000);
}

#[test]
fn css_lines() {
    let data = pink();
    let line = hsl_css(&data);
    assert_eq!(line.shown, "hsl(306  , 41% , 66% )");
    assert_eq!(line.copied, "hsl(305.915505, 41.0404%, 66.0785%)");
    let line = hsv_css(&data);
    assert_eq!(line.shown, "hsv(306  , 35% , 80% )");
    assert_eq!(line.copied, "hsv(305.915505, 34.8039%, 80%)");
    let line = rgb_css(&data);
    assert_eq!(line.shown, "rgb(204  , 133 , 197 )");
    assert_eq!(line.copied, "rgb(204, 133, 197)");
    let line = hex_css(&data);
    assert_eq!(line.shown, "#cc85c5");
    assert_eq!(line.copied, "#cc85c5");
}

#[test]
fn structured_lines() {
    let data = pink();
    let line = ori_hsl(&data);
    assert_eq!(line.shown, "hsl(305.9, 0.41, 0.66)");
    assert_eq!(line.copied, "hsl(305.9, 0.41, 0.66)");
    let line = ori_hsv(&data);
    assert_eq!(line.shown, "hsv(305.9, 0.35, 0.8 )");
    assert_eq!(line.copied, "hsv(305.9, 0.35, 0.8)");
    let line = ori_rgb(&data);
    assert_eq!(line.shown, "rgb(0.8  , 0.52, 0.77)");
    assert_eq!(line.copied, "rgb(0.8, 0.52, 0.77)");
    let line = ori_hex(&data);
    assert_eq!(line.shown, "hex(\"#cc85c5\")");
    assert_eq!(line.copied, "hex(\"#cc85c5\")");
}

#[test]
fn lines_of_black_and_white() {
    let mut data = Data::default();
    assert_eq!(hsl_css(&data).shown, "hsl(0    , 0%  , 0%  )");
    assert_eq!(hsl_css(&data).copied, "hsl(0, 0%, 0%)");
    assert_eq!(rgb_css(&data).shown, "rgb(0    , 0   , 0   )");
    assert_eq!(ori_hsl(&data).shown, "hsl(0.0  , 0.0 , 0.0 )");
    assert_eq!(ori_hsl(&data).copied, "hsl(0.0, 0.0, 0.0)");
    assert_eq!(ori_rgb(&data).copied, "rgb(0.0, 0.0, 0.0)");
    data.color = Color::white();
    assert_eq!(hsl_css(&data).shown, "hsl(0    , 0%  , 100%)");
    assert_eq!(hsv_css(&data).copied, "hsv(0, 0%, 100%)");
    assert_eq!(rgb_css(&data).copied, "rgb(255, 255, 255)");
    assert_eq!(ori_hsv(&data).shown, "hsv(0.0  , 0.0 , 1.0 )");
    assert_eq!(ori_rgb(&data).copied, "rgb(1.0, 1.0, 1.0)");
    assert_eq!(ori_hex(&data).copied, "hex(\"#ffffff\")");
}

#[test]
fn output_follows_the_notation() {
    let mut data = pink();
    let lines = output(&data);
    assert_eq!(lines[0], hsl_css(&data));
    assert_eq!(lines[1], hsv_css(&data));
    assert_eq!(lines[2], rgb_css(&data));
    assert_eq!(lines[3], hex_css(&data));
    data.output = Output::Ori;
    let lines = output(&data);
    assert_eq!(lines[0], ori_hsl(&data));
    assert_eq!(lines[1], ori_hsv(&data));
    assert_eq!(lines[2], ori_rgb(&data));
    assert_eq!(lines[3], ori_hex(&data));
}

#[test]
fn decimal_places_are_trimmed() {
    let mut data = Data::default();
    data.color = Color::rgb(50_000, 5_000, 500);
    assert_eq!(ori_rgb(&data).copied, "rgb(0.05, 0.01, 0.0)");
    assert_eq!(ori_rgb(&data).shown, "rgb(0.05 , 0.01, 0.0 )");
    data.color = Color::rgb(994_999, 995_000, 1_000_000);
    assert_eq!(ori_rgb(&data).copied, "rgb(0.99, 1.0, 1.0)");
    data.color = Color::rgb(1_000_000, 0, 1);
    assert_eq!(data.color.to_hsv(), (359_999_940, 1_000_000, 1_000_000));
    assert_eq!(hsv_css(&data).copied, "hsv(359.99994, 100%, 100%)");
    assert_eq!(hsv_css(&data).shown, "hsv(360  , 100%, 100%)");
    assert_eq!(ori_hsv(&data).copied, "hsv(360.0, 1.0, 1.0)");
    data.color = Color::rgb(1_000_000, 500_000, 250_000);
    assert_eq!(data.color.to_hsv(), (20_000_000, 750_000, 1_000_000));
    assert_eq!(data.color.to_hsl(), (20_000_000, 1_000_000, 625_000));
    assert_eq!(hsv_css(&data).copied, "hsv(20, 75%, 100%)");
    assert_eq!(hsl_css(&data).copied, "hsl(20, 100%, 62.5%)");
    assert_eq!(hsl_css(&data).shown, "hsl(20   , 100%, 63% )");
    assert_eq!(ori_hsl(&data).shown, "hsl(20.0 , 1.0 , 0.63)");
    assert_eq!(ori_hsv(&data).shown, "hsv(20.0 , 0.75, 1.0 )");
}
