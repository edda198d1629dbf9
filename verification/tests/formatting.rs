use motdyn::disk::{
    best_unit_scale, disk_usage_line, human_readable_usage, mount_usage_from_stats, select_mounts,
};
use motdyn::meminfo::to_gb_and_ratio;
use motdyn::num::{fixed2, u64_to_dec, u64_to_dec2};
use motdyn::report::timestamp_string;
use motdyn::uptime::format_uptime;

#[test]
fn uptime_zero_is_midnight_clock() {
    assert_eq!(format_uptime(0), b"00:00:00".to_vec());
}

#[test]
fn uptime_with_days() {
    assert_eq!(format_uptime(90061), b"1 days, 01:01:01".to_vec());
}

#[test]
fn uptime_just_under_a_day() {
    assert_eq!(format_uptime(86399), b"23:59:59".to_vec());
    assert_eq!(format_uptime(86400), b"1 days, 00:00:00".to_vec());
}

#[test]
fn decimal_writers() {
    assert_eq!(u64_to_dec(0), b"0".to_vec());
    assert_eq!(u64_to_dec(1234567890), b"1234567890".to_vec());
    assert_eq!(u64_to_dec2(7), b"07".to_vec());
    assert_eq!(u64_to_dec2(70), b"70".to_vec());
    assert_eq!(fixed2(0), b"0.00".to_vec());
    assert_eq!(fixed2(5000), b"50.00".to_vec());
    assert_eq!(fixed2(105), b"1.05".to_vec());
}

#[test]
fn gb_ratio_zero_total_is_all_zero() {
    assert_eq!(to_gb_and_ratio(0, 0), (0, 0, 0));
}

#[test]
fn gb_ratio_half_used() {
    // 2 GiB total, 1 GiB available: 1.00/2.00 GB at 50.00%.
    assert_eq!(to_gb_and_ratio(2097152, 1048576), (100, 200, 5000));
}

#[test]
fn gb_ratio_free_above_total_counts_nothing_used() {
    let (used, total, pct) = to_gb_and_ratio(100, 200);
    assert_eq!(used, 0);
    assert_eq!(pct, 0);
    assert_eq!(total, 0); // 100 kB rounds to 0.00 GB
}

#[test]
fn unit_selection_examples() {
    assert_eq!(best_unit_scale(500), 0);
    assert_eq!(best_unit_scale(2048), 1);
    assert_eq!(best_unit_scale(5 * 1024 * 1024), 2);
}

#[test]
fn unit_selection_boundaries() {
    assert_eq!(best_unit_scale(1023), 0);
    assert_eq!(best_unit_scale(1024), 1);
    assert_eq!(best_unit_scale(1024 * 1024), 2);
    assert_eq!(best_unit_scale(1024 * 1024 * 1024), 3);
    assert_eq!(best_unit_scale(1024u64.pow(4)), 4);
    assert_eq!(best_unit_scale(1024u64.pow(5)), 5);
    assert_eq!(best_unit_scale(1024u64.pow(5) - 1), 4);
}

#[test]
fn usage_strings_share_one_unit() {
    let (us, ts, pc) = human_readable_usage(1572864, 5242880);
    assert_eq!(us, b"1.50 MB".to_vec());
    assert_eq!(ts, b"5.00 MB".to_vec());
    assert_eq!(pc, 3000);
}

#[test]
fn usage_zero_total() {
    let (us, ts, pc) = human_readable_usage(0, 0);
    assert_eq!(us, b"0.00 B".to_vec());
    assert_eq!(ts, b"0.00 B".to_vec());
    assert_eq!(pc, 0);
}

#[test]
fn mount_usage_math_saturates() {
    assert_eq!(mount_usage_from_stats(4096, 1000, 250), (4096000, 3072000));
    // more free than total blocks: nothing used
    assert_eq!(mount_usage_from_stats(4096, 10, 20), (40960, 0));
    assert_eq!(mount_usage_from_stats(u64::MAX, 2, 0), (u64::MAX, u64::MAX));
}

#[test]
fn disk_line_exact_text() {
    let line = disk_usage_line(b"Disk usage (root):", b"/", 5242880, 1572864);
    assert_eq!(
        line,
        b"Disk usage (root): / => 1.50 MB/5.00 MB (30.00%)".to_vec()
    );
}

#[test]
fn mount_selection_root_and_nfs_in_order() {
    let table = b"sysfs /sys sysfs rw 0 0\n/dev/sda1 / ext4 rw 0 0\nserver:/x /mnt/x nfs4 rw 0 0\nserver:/y /mnt/y nfs rw 0 0\ntmpfs /tmp tmpfs rw 0 0\n";
    let sel = select_mounts(table);
    assert_eq!(sel.len(), 3);
    assert_eq!(sel[0].path, b"/".to_vec());
    assert!(!sel[0].nfs);
    assert_eq!(sel[1].path, b"/mnt/x".to_vec());
    assert!(sel[1].nfs);
    assert_eq!(sel[2].path, b"/mnt/y".to_vec());
    assert!(sel[2].nfs);
}

#[test]
fn mount_selection_short_lines_skipped() {
    assert_eq!(select_mounts(b"odd line\n\n").len(), 0);
}

#[test]
fn timestamp_matches_clock_format() {
    let t = timestamp_string(2024, 12, 27, 17, 36, 25, false, 8, 0);
    assert_eq!(t, b"2024-12-27 17:36:25 +08:00".to_vec());
    let t = timestamp_string(2024, 1, 2, 3, 4, 5, true, 5, 30);
    assert_eq!(t, b"2024-01-02 03:04:05 -05:30".to_vec());
}
