use plyband::error::Error;
use plyband::input::split_path_band;

#[test]
fn path_with_band() {
    assert_eq!(split_path_band("parent/file.tif:2"), Some(("parent/file.tif", 2)));
}

#[test]
fn path_without_band_means_the_first() {
    assert_eq!(split_path_band("parent/file.tif"), Some(("parent/file.tif", 1)));
    assert_eq!(split_path_band(""), Some(("", 1)));
}

#[test]
fn band_may_carry_a_sign() {
    assert_eq!(split_path_band("a.tif:+4"), Some(("a.tif", 4)));
    assert_eq!(split_path_band("a.tif:-3"), Some(("a.tif", -3)));
    assert_eq!(split_path_band("a.tif:0"), Some(("a.tif", 0)));
    assert_eq!(split_path_band("a.tif:-0"), Some(("a.tif", 0)));
    assert_eq!(split_path_band("a.tif:007"), Some(("a.tif", 7)));
}

#[test]
fn band_that_is_no_number_is_refused() {
    assert_eq!(split_path_band("a.tif:"), None);
    assert_eq!(split_path_band("a.tif:x"), None);
    assert_eq!(split_path_band("a.tif:2x"), None);
    assert_eq!(split_path_band("a.tif: 2"), None);
    assert_eq!(split_path_band("a.tif:2 "), None);
    assert_eq!(split_path_band("a.tif:+"), None);
    assert_eq!(split_path_band("a.tif:-"), None);
    assert_eq!(split_path_band("a.tif:+-2"), None);
    assert_eq!(split_path_band("a.tif:2.0"), None);
    assert_eq!(split_path_band("a.tif:\u{0662}"), None);
    assert_eq!(split_path_band("C:\\data\\a.tif"), None);
}

#[test]
fn what_follows_a_second_colon_is_ignored() {
    assert_eq!(split_path_band("a.tif:2:anything"), Some(("a.tif", 2)));
    assert_eq!(split_path_band("a.tif:2:"), Some(("a.tif", 2)));
    assert_eq!(split_path_band("a.tif::2"), None);
    assert_eq!(split_path_band(":5"), Some(("", 5)));
}

#[test]
fn band_is_held_to_the_range() {
    let max = format!("f:{}", isize::MAX);
    let min = format!("f:{}", isize::MIN);
    assert_eq!(split_path_band(&max), Some(("f", isize::MAX)));
    assert_eq!(split_path_band(&min), Some(("f", isize::MIN)));
    assert_eq!(split_path_band("f:9223372036854775808"), None);
    assert_eq!(split_path_band("f:-9223372036854775809"), None);
    assert_eq!(split_path_band("f:99999999999999999999999999999999999999999999"), None);
    assert_eq!(split_path_band("f:00000000000000000000000000000000000000000012"), Some(("f", 12)));
}

#[test]
fn band_agrees_with_the_standard_parser() {
    for text in ["1", "+1", "-1", "", "+", "12a", "0012", "-0", "9999999999999999999", "٣"] {
        let input = format!("p:{}", text);
        let expected = text.parse::<isize>().ok().map(|band| ("p", band));
        assert_eq!(split_path_band(&input), expected, "band text {:?}", text);
    }
}

#[test]
fn path_may_hold_any_characters() {
    assert_eq!(split_path_band("données/été.tif:3"), Some(("données/été.tif", 3)));
    assert_eq!(split_path_band("数据/图像.tif"), Some(("数据/图像.tif", 1)));
}

#[test]
fn from_string_keeps_the_description() {
    let e = Error::from_string("GdalError no such file".to_string());
    assert_eq!(e, Error::ExternalIO("GdalError no such file".to_string()));
    assert_eq!(e.message(), "GdalError no such file");
}

#[test]
fn every_error_has_its_message() {
    assert_eq!(Error::EmptyInput.message(), "No bands provided");
    assert_eq!(Error::NoIntersection.message(), "No valid intersection between bands");
    assert_eq!(Error::ProjectionMismatch.message(), "Different projections");
    assert_eq!(Error::SpacingMismatch.message(), "non-equal spacing");
    assert_eq!(Error::OffsetMisaligned.message(), "grids offset");
    assert_eq!(Error::SingularTransform.message(), "transform cannot be inverted");
    assert_eq!(Error::from_string(String::new()).message(), "");
}
