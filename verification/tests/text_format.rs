use voxel_world::utils::format_duration;

#[test]
fn durations_below_an_hour() {
    assert_eq!(format_duration(0), "0:00");
    assert_eq!(format_duration(5), "0:05");
    assert_eq!(format_duration(59), "0:59");
    assert_eq!(format_duration(60), "1:00");
    assert_eq!(format_duration(65), "1:05");
    assert_eq!(format_duration(600), "10:00");
    assert_eq!(format_duration(3599), "59:59");
}

#[test]
fn durations_of_an_hour_and_more() {
    assert_eq!(format_duration(3600), "1:00:00");
    assert_eq!(format_duration(3661), "1:01:01");
    assert_eq!(format_duration(36000), "10:00:00");
    assert_eq!(format_duration(100000), "27:46:40");
    assert_eq!(format_duration(359999), "99:59:59");
    assert_eq!(format_duration(360000), "100:00:00");
}

#[test]
fn durations_agree_with_formatting_by_hand() {
    let mut seconds: u64 = 1;
    for _ in 0..64 {
        for total in [seconds - 1, seconds, seconds + 1, u64::MAX - seconds] {
            let (h, m, s) = (total / 3600, (total % 3600) / 60, total % 60);
            let expected = if h > 0 { format!("{}:{:02}:{:02}", h, m, s) } else { format!("{}:{:02}", m, s) };
            assert_eq!(format_duration(total), expected);
        }
        seconds = seconds.wrapping_mul(2).max(1);
    }
    assert_eq!(format_duration(u64::MAX), "5124095576030431:00:15");
}
