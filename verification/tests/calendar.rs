use officium_rs::date::{
    date_to_days, date_to_ydays, day_of_week, days_to_date, get_sday, getadvent, geteaster,
    getweek, leap_year, monthday, nextday, prevnext, sancti_kalendar_key, sday_pair,
    ydays_to_date,
};

fn wk(d: u32, m: u32, y: i32) -> String {
    getweek(d, m, y, false, true)
}

fn wk_office(d: u32, m: u32, y: i32) -> String {
    getweek(d, m, y, false, false)
}

#[test]
fn easter_dates_across_decade() {
    assert_eq!(geteaster(2024), (31, 3, 2024));
    assert_eq!(geteaster(2025), (20, 4, 2025));
    assert_eq!(geteaster(2026), (5, 4, 2026));
    assert_eq!(geteaster(2027), (28, 3, 2027));
    assert_eq!(geteaster(2028), (16, 4, 2028));
}

#[test]
fn easter_sunday_emits_pasc0() {
    for (d, m, y) in [(31, 3, 2024), (20, 4, 2025), (5, 4, 2026), (28, 3, 2027), (16, 4, 2028)] {
        assert_eq!(wk(d, m, y), "Pasc0", "Easter {y}-{m:02}-{d:02}");
    }
}

#[test]
fn eastertide_progression_2026() {
    assert_eq!(wk(5, 4, 2026), "Pasc0");
    assert_eq!(wk(12, 4, 2026), "Pasc1");
    assert_eq!(wk(19, 4, 2026), "Pasc2");
    assert_eq!(wk(26, 4, 2026), "Pasc3");
    assert_eq!(wk(3, 5, 2026), "Pasc4");
    assert_eq!(wk(10, 5, 2026), "Pasc5");
    assert_eq!(wk(17, 5, 2026), "Pasc6");
    assert_eq!(wk(24, 5, 2026), "Pasc7");
    assert_eq!(wk(31, 5, 2026), "Pent01");
}

#[test]
fn pre_lent_and_lent_2026() {
    assert_eq!(wk(25, 1, 2026), "Epi3");
    assert_eq!(wk(1, 2, 2026), "Quadp1");
    assert_eq!(wk(8, 2, 2026), "Quadp2");
    assert_eq!(wk(15, 2, 2026), "Quadp3");
    assert_eq!(wk(22, 2, 2026), "Quad1");
    assert_eq!(wk(1, 3, 2026), "Quad2");
    assert_eq!(wk(29, 3, 2026), "Quad6");
}

#[test]
fn advent_progression_2026() {
    assert_eq!(wk(29, 11, 2026), "Adv1");
    assert_eq!(wk(6, 12, 2026), "Adv2");
    assert_eq!(wk(13, 12, 2026), "Adv3");
    assert_eq!(wk(20, 12, 2026), "Adv4");
    assert_eq!(wk(24, 12, 2026), "Adv4");
}

#[test]
fn christmas_octave_unpadded() {
    assert_eq!(wk(25, 12, 2026), "Nat25");
    assert_eq!(wk(26, 12, 2026), "Nat26");
    assert_eq!(wk(27, 12, 2026), "Nat27");
    assert_eq!(wk(28, 12, 2026), "Nat28");
    assert_eq!(wk(29, 12, 2026), "Nat29");
    assert_eq!(wk(30, 12, 2026), "Nat30");
    assert_eq!(wk(31, 12, 2026), "Nat31");
}

#[test]
fn pre_epiphany_jan_zero_padded() {
    assert_eq!(wk(1, 1, 2026), "Nat01");
    assert_eq!(wk(2, 1, 2026), "Nat02");
    assert_eq!(wk(3, 1, 2026), "Nat03");
    assert_eq!(wk(4, 1, 2026), "Nat04");
    assert_eq!(wk(5, 1, 2026), "Nat05");
    assert_eq!(wk(6, 1, 2026), "Nat06");
}

#[test]
fn christmas_on_sunday_advent_shift_2022() {
    assert_eq!(wk(27, 11, 2022), "Adv1");
    assert_eq!(wk(4, 12, 2022), "Adv2");
    assert_eq!(wk(11, 12, 2022), "Adv3");
    assert_eq!(wk(18, 12, 2022), "Adv4");
    assert_eq!(wk(25, 12, 2022), "Nat25");
}

#[test]
fn pent_epi_vs_epi_split_on_missa_flag() {
    assert_eq!(wk(1, 11, 2027), "PentEpi4");
    assert_eq!(wk_office(1, 11, 2027), "Epi4");
    assert_eq!(wk(7, 11, 2027), "PentEpi5");
    assert_eq!(wk_office(7, 11, 2027), "Epi5");
    assert_eq!(wk(14, 11, 2027), "PentEpi6");
    assert_eq!(wk_office(14, 11, 2027), "Epi6");
    assert_eq!(wk(21, 11, 2027), "Pent24");
    assert_eq!(wk_office(21, 11, 2027), "Pent24");
}

#[test]
fn day_of_week_pinned_anchors() {
    assert_eq!(day_of_week(5, 4, 2026), 0);
    assert_eq!(day_of_week(25, 12, 2022), 0);
    assert_eq!(day_of_week(25, 12, 2026), 5);
    assert_eq!(day_of_week(29, 4, 2026), 3);
    assert_eq!(day_of_week(1, 1, 2000), 6);
}

#[test]
fn getadvent_year_shape() {
    assert_eq!(getadvent(2022), 331);
    assert_eq!(getadvent(2026), 333);
    assert_eq!(getadvent(2024), 336);
}

#[test]
fn non_leap_passes_through() {
    for d in 1..=31 {
        assert_eq!(sday_pair(2, d, 2025), (2, d));
    }
    for d in 1..=31 {
        assert_eq!(sday_pair(3, d, 2025), (3, d));
    }
}

#[test]
fn leap_february_shift() {
    for d in 1..=23 {
        assert_eq!(sday_pair(2, d, 2024), (2, d));
    }
    assert_eq!(sday_pair(2, 24, 2024), (2, 29));
    assert_eq!(sday_pair(2, 25, 2024), (2, 24));
    assert_eq!(sday_pair(2, 26, 2024), (2, 25));
    assert_eq!(sday_pair(2, 27, 2024), (2, 26));
    assert_eq!(sday_pair(2, 28, 2024), (2, 27));
    assert_eq!(sday_pair(2, 29, 2024), (2, 28));
}

#[test]
fn non_february_unaffected_in_leap_year() {
    assert_eq!(sday_pair(1, 24, 2024), (1, 24));
    assert_eq!(sday_pair(3, 1, 2024), (3, 1));
    assert_eq!(sday_pair(3, 25, 2024), (3, 25));
}

#[test]
fn century_leap_year_handling() {
    assert_eq!(sday_pair(2, 24, 2000), (2, 29));
    assert_eq!(sday_pair(2, 24, 1900), (2, 24));
    assert_eq!(sday_pair(2, 24, 2100), (2, 24));
}

#[test]
fn get_sday_string_round_trip() {
    assert_eq!(get_sday(2, 24, 2024), "02-29");
    assert_eq!(get_sday(2, 25, 2024), "02-24");
    assert_eq!(get_sday(2, 24, 2025), "02-24");
}

#[test]
fn sancti_kalendar_key_suppresses_leap_feb_23() {
    assert_eq!(sancti_kalendar_key(2024, 2, 23), None);
    assert_eq!(sancti_kalendar_key(2000, 2, 23), None);
    assert_eq!(sancti_kalendar_key(2060, 2, 23), None);
}

#[test]
fn sancti_kalendar_key_passes_through_non_leap() {
    assert_eq!(sancti_kalendar_key(2025, 2, 23), Some((2, 23)));
    assert_eq!(sancti_kalendar_key(1900, 2, 23), Some((2, 23)));
    assert_eq!(sancti_kalendar_key(2100, 2, 23), Some((2, 23)));
}

#[test]
fn sancti_kalendar_key_leap_feb_24_resolves_to_bissextile() {
    assert_eq!(sancti_kalendar_key(2024, 2, 24), Some((2, 29)));
    assert_eq!(sancti_kalendar_key(2000, 2, 24), Some((2, 29)));
}

#[test]
fn sancti_kalendar_key_leap_post_feb_24_shifts() {
    assert_eq!(sancti_kalendar_key(2024, 2, 25), Some((2, 24)));
    assert_eq!(sancti_kalendar_key(2024, 2, 28), Some((2, 27)));
    assert_eq!(sancti_kalendar_key(2024, 2, 29), Some((2, 28)));
}

#[test]
fn sancti_kalendar_key_non_february_unchanged() {
    for (m, d, y) in [(1, 23, 2024), (3, 23, 2024), (12, 24, 2024)] {
        assert_eq!(
            sancti_kalendar_key(y, m, d),
            Some((m, d)),
            "non-Feb date should pass through: {y}-{m:02}-{d:02}"
        );
    }
}

// ─── Documented examples ─────────────────────────────────────────────

#[test]
fn leap_year_documented_cases() {
    assert!(leap_year(2000));
    assert!(!leap_year(1900));
    assert!(leap_year(2024));
    assert!(!leap_year(2023));
}

#[test]
fn easter_2024_documented() {
    let (eday, emonth, eyear) = geteaster(2024);
    assert_eq!((eday, emonth, eyear), (31, 3, 2024));
}

#[test]
fn advent_2023_documented() {
    assert_eq!(getadvent(2023), 337);
}

#[test]
fn christmas_2023_is_monday() {
    assert_eq!(day_of_week(25, 12, 2023), 1);
}

#[test]
fn day_of_year_documented_cases() {
    assert_eq!(date_to_ydays(1, 1, 2023), 1);
    assert_eq!(date_to_ydays(31, 12, 2023), 365);
    assert_eq!(date_to_ydays(1, 3, 2024), 61);
    assert_eq!(ydays_to_date(365, 2023), (31, 12, 2023));
}

#[test]
fn third_week_of_advent_2023() {
    assert_eq!(getweek(20, 12, 2023, false, false), "Adv3".to_string());
}

#[test]
fn nextday_crosses_month_and_year() {
    assert_eq!(nextday(2, 28, 2023), "03-01");
    assert_eq!(nextday(2, 28, 2024), "02-30");
    assert_eq!(nextday(2, 27, 2024), "02-27");
    assert_eq!(nextday(2, 29, 2024), "03-01");
    assert_eq!(nextday(2, 23, 2024), "02-29");
    assert_eq!(nextday(12, 31, 2023), "01-01");
}

#[test]
fn prevnext_shifts_us_dates() {
    assert_eq!(prevnext("02-26-2024", 2), "02-28-2024");
    assert_eq!(prevnext("02-28-2024", 1), "02-29-2024");
    assert_eq!(prevnext("03-01-2024", -1), "02-29-2024");
    assert_eq!(prevnext("12-31-2023", 1), "01-01-2024");
    assert_eq!(prevnext("not a date", 5), "not a date");
    assert_eq!(prevnext("xx-yy-zzzz", 0), "01-01-1970");
}

#[test]
fn epoch_day_zero_is_1970_01_01() {
    let (sec, min, hour, dday, dmonth, dyear, wday, yday, isdst) = days_to_date(0);
    assert_eq!((dday, dmonth, dyear), (1, 0, 70));
    assert_eq!((sec, min, hour, wday, yday, isdst), (0, 0, 6, 4, 0, 0));
    assert_eq!(date_to_days(1, 1, 1970), 0);
}

#[test]
fn day_count_round_trips_across_centuries() {
    for (d, m, y) in [(1u32, 1u32, 1900i32), (28, 2, 1900), (1, 3, 1900), (29, 2, 2000),
                      (31, 12, 1999), (29, 2, 2024), (1, 3, 2100), (15, 10, 1582)] {
        let k = date_to_days(d, m, y);
        let (_, _, _, dd, dm, dy, wday, _, _) = days_to_date(k);
        assert_eq!((dd as u32, (dm + 1) as u32, dy + 1900), (d, m, y));
        assert_eq!(wday as u32, day_of_week(d, m, y));
    }
    assert_eq!(date_to_days(1, 1, 2000), 10957);
    assert_eq!(date_to_days(31, 12, 1969), -1);
}

#[test]
fn easter_is_a_sunday_in_its_window() {
    for y in 1583..2400 {
        let (d, m, yy) = geteaster(y);
        assert_eq!(yy, y);
        assert_eq!(day_of_week(d, m, y), 0, "Easter {y} not a Sunday");
        assert!((m == 3 && (22..=31).contains(&d)) || (m == 4 && (1..=25).contains(&d)));
    }
}

#[test]
fn advent_sunday_precedes_christmas() {
    for y in 1900..2100 {
        let a = getadvent(y);
        let (d, m, _) = ydays_to_date(a, y);
        assert_eq!(day_of_week(d, m, y), 0);
        let xmas = date_to_ydays(25, 12, y);
        assert!(xmas - a >= 22 && xmas - a <= 28);
    }
}

#[test]
fn monthday_outside_august_to_december_is_empty() {
    assert_eq!(monthday(10, 3, 2026, false, false), "");
}

#[test]
fn prevnext_shifts_compose() {
    for (s, a, b) in [("02-26-2024", 2, 3), ("12-30-1999", 5, -40), ("03-01-2100", -1, 1), ("1-2-2020", 400, -401)] {
        let once = prevnext(s, a);
        assert_eq!(prevnext(&once, b), prevnext(s, a + b), "{s} {a} {b}");
    }
}

#[test]
fn easter_and_paschaltide_sundays_are_labelled() {
    for y in 1583..2300 {
        let (d, m, _) = geteaster(y);
        assert_eq!(getweek(d, m, y, false, true), "Pasc0");
        assert_eq!(getweek(d, m, y, false, false), "Pasc0");
        let e = date_to_ydays(d, m, y);
        for k in 1..=7u32 {
            let (dd, mm, _) = ydays_to_date(e + 7 * k, y);
            assert_eq!(getweek(dd, mm, y, false, false), format!("Pasc{k}"));
        }
    }
}
