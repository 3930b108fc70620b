use gamecrawler::clock::{stamp_of_seconds, year_of_seconds, year_u16};

#[test]
fn stamps_of_given_moments() {
    assert_eq!(stamp_of_seconds(0).as_deref(), Some("1970-01-01 00:00 UTC"));
    assert_eq!(stamp_of_seconds(1431648000).as_deref(), Some("2015-05-15 00:00 UTC"));
    assert_eq!(stamp_of_seconds(1704164640).as_deref(), Some("2024-01-02 03:04 UTC"));
    assert_eq!(stamp_of_seconds(253402300799).as_deref(), Some("9999-12-31 23:59 UTC"));
    assert_eq!(stamp_of_seconds(253402300800).as_deref(), Some("+10000-01-01 00:00 UTC"));
    assert_eq!(stamp_of_seconds(u64::MAX), None);
}

#[test]
fn years_of_given_moments() {
    assert_eq!(year_of_seconds(0), Some(1970));
    assert_eq!(year_of_seconds(1431648000), Some(2015));
    assert_eq!(year_of_seconds(253402300799), Some(9999));
    assert_eq!(year_of_seconds(u64::MAX), None);
    assert_eq!(year_of_seconds(i64::MAX as u64), None);
}

#[test]
fn years_cut_to_sixteen_bits() {
    assert_eq!(year_u16(2024), 2024);
    assert_eq!(year_u16(70000), 4464);
    assert_eq!(year_u16(-1), 65535);
}
