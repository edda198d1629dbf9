use motdyn::config::{expand_tilde, merge_config, parse_config, MotdConfig};
use motdyn::cpuinfo::parse_cpuinfo;
use motdyn::meminfo::parse_meminfo;
use motdyn::num::parse_u64;
use motdyn::osinfo::{first_line, get_os_info, parse_os_release, parse_redhat_release};
use motdyn::uptime::parse_uptime;
use motdyn::users::{get_current_user_and_ip, parse_login_count};

#[test]
fn uptime_typical_line() {
    assert_eq!(parse_uptime(b"25333.53 1022.3\n"), Some(25333));
}

#[test]
fn uptime_whole_seconds() {
    assert_eq!(parse_uptime(b"42 1"), Some(42));
}

#[test]
fn uptime_rejects_non_numeric() {
    assert_eq!(parse_uptime(b"abc 1022.3"), None);
    assert_eq!(parse_uptime(b""), None);
    assert_eq!(parse_uptime(b"   "), None);
}

#[test]
fn parse_u64_accepts_plus_and_bounds() {
    assert_eq!(parse_u64(b"123"), Some(123));
    assert_eq!(parse_u64(b"+123"), Some(123));
    assert_eq!(parse_u64(b"18446744073709551615"), Some(u64::MAX));
    assert_eq!(parse_u64(b"18446744073709551616"), None);
    assert_eq!(parse_u64(b"+"), None);
    assert_eq!(parse_u64(b""), None);
    assert_eq!(parse_u64(b"12a"), None);
}

#[test]
fn os_release_both_orders_and_quotes() {
    let a = b"NAME=\"Ubuntu\"\nVERSION_ID=\"22.04\"\n";
    let b = b"VERSION_ID=22.04\nNAME=Ubuntu\n";
    let ra = parse_os_release(a).unwrap();
    let rb = parse_os_release(b).unwrap();
    assert_eq!(ra.0, b"Ubuntu".to_vec());
    assert_eq!(ra.1, b"22.04".to_vec());
    assert_eq!(rb.0, b"Ubuntu".to_vec());
    assert_eq!(rb.1, b"22.04".to_vec());
}

#[test]
fn os_release_needs_both_keys() {
    assert!(parse_os_release(b"NAME=\"Ubuntu\"\n").is_none());
    assert!(parse_os_release(b"PRETTY_NAME=\"X\"\n").is_none());
}

#[test]
fn redhat_release_splits_on_marker() {
    let r = parse_redhat_release(b"CentOS Linux release 7.9.2009 (Core)\n").unwrap();
    assert_eq!(r.0, b"CentOS Linux".to_vec());
    assert_eq!(r.1, b"7.9.2009 (Core)".to_vec());
}

#[test]
fn redhat_release_without_marker_fails() {
    assert!(parse_redhat_release(b"Debian GNU/Linux").is_none());
}

#[test]
fn os_info_prefers_redhat_release() {
    let (name, ver) = get_os_info(
        b"CentOS Linux release 7.9.2009 (Core)\n",
        b"NAME=\"Ubuntu\"\nVERSION_ID=\"22.04\"\n",
        b"Linux\n",
    );
    assert_eq!(name, b"CentOS Linux".to_vec());
    assert_eq!(ver, b"7.9.2009 (Core)".to_vec());
}

#[test]
fn os_info_falls_back_to_os_release_then_kernel() {
    let (name, ver) = get_os_info(b"", b"NAME=U\nVERSION_ID=1\n", b"Linux\n");
    assert_eq!(name, b"U".to_vec());
    assert_eq!(ver, b"1".to_vec());
    let (name, ver) = get_os_info(b"", b"", b"Linux\n");
    assert_eq!(name, b"Linux".to_vec());
    assert_eq!(ver, b"Linux".to_vec());
    let (name, ver) = get_os_info(b"", b"", b"");
    assert_eq!(name, b"Linux".to_vec());
    assert_eq!(ver, b"Linux".to_vec());
}

#[test]
fn first_line_trims_and_rejects_empty() {
    assert_eq!(first_line(b"hostname\nrest"), Some(b"hostname".to_vec()));
    assert_eq!(first_line(b"  spaced  \n"), Some(b"spaced".to_vec()));
    assert_eq!(first_line(b""), None);
}

#[test]
fn meminfo_reads_the_four_counters() {
    let content = b"MemTotal:       2097152 kB\nMemFree:          99999 kB\nMemAvailable:   1048576 kB\nSwapTotal:      4194304 kB\nSwapFree:       4194304 kB\n";
    let m = parse_meminfo(content);
    assert_eq!(m.mem_total, 2097152);
    assert_eq!(m.mem_free, 1048576);
    assert_eq!(m.swap_total, 4194304);
    assert_eq!(m.swap_free, 4194304);
}

#[test]
fn meminfo_falls_back_to_mem_free() {
    let content = b"MemTotal: 1000 kB\nMemFree: 250 kB\n";
    let m = parse_meminfo(content);
    assert_eq!(m.mem_total, 1000);
    assert_eq!(m.mem_free, 250);
    assert_eq!(m.swap_total, 0);
}

#[test]
fn meminfo_unreadable_reads_as_zeroes() {
    let m = parse_meminfo(b"");
    assert_eq!(
        (m.mem_total, m.mem_free, m.swap_total, m.swap_free),
        (0, 0, 0, 0)
    );
}

#[test]
fn cpuinfo_counts_cores_and_takes_first_model() {
    let content = b"processor\t: 0\nmodel name\t: Intel(R) Xeon(R)\nprocessor\t: 1\nmodel name\t: Other Brand\n";
    let (brand, count) = parse_cpuinfo(content);
    assert_eq!(brand, b"Intel(R) Xeon(R)".to_vec());
    assert_eq!(count, 2);
}

#[test]
fn cpuinfo_defaults_when_empty() {
    let (brand, count) = parse_cpuinfo(b"");
    assert_eq!(brand, b"Unknown CPU".to_vec());
    assert_eq!(count, 0);
}

#[test]
fn login_count_reads_marker_line() {
    assert_eq!(parse_login_count(b"root tty1\n7 users logged on, # users=3\n"), 3);
}

#[test]
fn login_count_without_marker_is_zero() {
    assert_eq!(parse_login_count(b"root tty1\nno marker here\n"), 0);
    assert_eq!(parse_login_count(b""), 0);
}

#[test]
fn login_count_unparsable_tail_is_zero() {
    assert_eq!(parse_login_count(b"# users=many\n"), 0);
}

#[test]
fn user_and_ip_fallback_chain() {
    let (u, ip) = get_current_user_and_ip(
        Some(b"alice".to_vec()),
        Some(b"bob".to_vec()),
        Some(b"10.0.0.5 52422 10.0.0.1 22".to_vec()),
    );
    assert_eq!(u, b"alice".to_vec());
    assert_eq!(ip, b"10.0.0.5".to_vec());
    let (u, ip) = get_current_user_and_ip(None, Some(b"bob".to_vec()), None);
    assert_eq!(u, b"bob".to_vec());
    assert_eq!(ip, b"unknown".to_vec());
    let (u, ip) = get_current_user_and_ip(None, None, Some(b"   ".to_vec()));
    assert_eq!(u, b"unknown".to_vec());
    assert_eq!(ip, b"unknown".to_vec());
}

#[test]
fn config_parses_both_fields() {
    let c = parse_config(b"# banner\nascii_art = \"hello\\nworld\"\nfarewell = 'Bye'\n").unwrap();
    assert_eq!(c.ascii_art, Some(b"hello\nworld".to_vec()));
    assert_eq!(c.farewell, Some(b"Bye".to_vec()));
}

#[test]
fn config_ignores_unknown_keys_and_blanks() {
    let c = parse_config(b"\nother-key = \"x\"\n\nfarewell = \"Bye\"\n").unwrap();
    assert_eq!(c.ascii_art, None);
    assert_eq!(c.farewell, Some(b"Bye".to_vec()));
}

#[test]
fn config_malformed_reads_as_none() {
    assert!(parse_config(b"farewell = Bye\n").is_none());
    assert!(parse_config(b"farewell\n").is_none());
    assert!(parse_config(b"farewell = \"unclosed\n").is_none());
    assert!(parse_config(b"farewell = \"a\"\nfarewell = \"b\"\n").is_none());
    assert!(parse_config(b"bad key = \"x\"\n").is_none());
}

#[test]
fn config_empty_file_is_empty_config() {
    let c = parse_config(b"").unwrap();
    assert_eq!(c.ascii_art, None);
    assert_eq!(c.farewell, None);
}

#[test]
fn merge_user_fields_override() {
    let sys = MotdConfig {
        ascii_art: Some(b"A".to_vec()),
        farewell: None,
    };
    let usr = MotdConfig {
        ascii_art: None,
        farewell: Some(b"Bye".to_vec()),
    };
    let m = merge_config(Some(sys), Some(usr));
    assert_eq!(m.ascii_art, Some(b"A".to_vec()));
    assert_eq!(m.farewell, Some(b"Bye".to_vec()));
}

#[test]
fn merge_absent_user_keeps_system() {
    let sys = MotdConfig {
        ascii_art: Some(b"A".to_vec()),
        farewell: Some(b"F".to_vec()),
    };
    let m = merge_config(Some(sys), None);
    assert_eq!(m.ascii_art, Some(b"A".to_vec()));
    assert_eq!(m.farewell, Some(b"F".to_vec()));
}

#[test]
fn merge_both_absent_is_all_default() {
    let m = merge_config(None, None);
    assert_eq!(m.ascii_art, None);
    assert_eq!(m.farewell, None);
}

#[test]
fn login_count_first_marker_line_wins() {
    assert_eq!(parse_login_count(b"# users=2\n# users=9\n"), 2);
}

#[test]
fn uptime_saturates_on_huge_counters() {
    assert_eq!(parse_uptime(b"99999999999999999999999999.00 1.0"), Some(u64::MAX));
}

#[test]
fn os_release_strips_all_surrounding_quotes() {
    let r = parse_os_release(b"NAME=\"\"U\"\"\nVERSION_ID=\"1\"\n").unwrap();
    assert_eq!(r.0, b"U".to_vec());
}

#[test]
fn expand_tilde_uses_home() {
    assert_eq!(
        expand_tilde(b"~/.config/x", Some(b"/home/alice")),
        b"/home/alice/.config/x".to_vec()
    );
    assert_eq!(expand_tilde(b"~/.config/x", None), b"~/.config/x".to_vec());
    assert_eq!(
        expand_tilde(b"/etc/x", Some(b"/home/alice")),
        b"/etc/x".to_vec()
    );
}
