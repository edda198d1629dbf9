use motdyn::config::MotdConfig;
use motdyn::report::{render_aligned, render_report, HostFacts};

fn sample_facts() -> HostFacts {
    HostFacts {
        now: b"2024-01-01 00:00:00 +00:00".to_vec(),
        uptime: None,
        os_name: b"Ubuntu".to_vec(),
        os_version: b"22.04".to_vec(),
        kernel: Some(b"6.1".to_vec()),
        hostname: Some(b"host".to_vec()),
        cpu_brand: b"CPU".to_vec(),
        cpu_count: 2,
        mem_total_kb: 2097152,
        mem_free_kb: 1048576,
        swap_total_kb: 0,
        swap_free_kb: 0,
        user: b"root".to_vec(),
        from_ip: b"unknown".to_vec(),
        login_count: 3,
        disk_lines: Vec::new(),
    }
}

#[test]
fn full_report_exact_text() {
    let cfg = MotdConfig {
        ascii_art: None,
        farewell: None,
    };
    let out = render_report(&cfg, false, &sample_facts());
    let expected = "Welcome!\n\
                    \n\
                    Current time (TZ): 2024-01-01 00:00:00 +00:00\n\
                    System uptime:     unknown\n\
                    Operating system:  Ubuntu 22.04\n\
                    Kernel version:    6.1\n\
                    Host name:         host\n\
                    CPU:               CPU (2 cores)\n\
                    Memory used/total: 1.00/2.00 GB (50.00%)\n\
                    Swap used/total:   0.00/0.00 GB (0.00%)\n\
                    Current user:      root (from unknown)\n\
                    Login user count:  3\n\
                    \n\
                    Have a nice day!\n";
    assert_eq!(String::from_utf8(out).unwrap(), expected);
}

#[test]
fn banner_farewell_verbose_and_disk_lines() {
    let cfg = MotdConfig {
        ascii_art: Some(b"ART".to_vec()),
        farewell: Some(b"So long".to_vec()),
    };
    let mut f = sample_facts();
    f.disk_lines
        .push(b"Disk usage (root): / => 1.50 MB/5.00 MB (30.00%)".to_vec());
    let out = String::from_utf8(render_report(&cfg, true, &f)).unwrap();
    assert!(out.starts_with("\nART\n\nWelcome!\n\n"));
    assert!(out.contains("\nDisk usage (root): / => 1.50 MB/5.00 MB (30.00%)\n"));
    assert!(out.contains("\nVerbose mode: put extra info here.\n"));
    assert!(out.ends_with("\nSo long\n"));
}

#[test]
fn blank_farewell_falls_back_to_default() {
    let cfg = MotdConfig {
        ascii_art: None,
        farewell: Some(b"   ".to_vec()),
    };
    let out = String::from_utf8(render_report(&cfg, false, &sample_facts())).unwrap();
    assert!(out.ends_with("\nHave a nice day!\n"));
}

#[test]
fn rendering_is_deterministic() {
    let cfg = MotdConfig {
        ascii_art: None,
        farewell: None,
    };
    let a = render_report(&cfg, false, &sample_facts());
    let b = render_report(&cfg, false, &sample_facts());
    assert_eq!(a, b);
}

#[test]
fn reports_differ_only_in_the_time_line() {
    let cfg = MotdConfig {
        ascii_art: None,
        farewell: None,
    };
    let f1 = sample_facts();
    let mut f2 = sample_facts();
    f2.now = b"2025-06-30 12:34:56 +02:00".to_vec();
    let a = String::from_utf8(render_report(&cfg, false, &f1)).unwrap();
    let b = String::from_utf8(render_report(&cfg, false, &f2)).unwrap();
    let la: Vec<&str> = a.lines().collect();
    let lb: Vec<&str> = b.lines().collect();
    assert_eq!(la.len(), lb.len());
    for (i, (x, y)) in la.iter().zip(lb.iter()).enumerate() {
        if i == 2 {
            assert_ne!(x, y);
            assert!(x.starts_with("Current time (TZ): "));
            assert!(y.starts_with("Current time (TZ): "));
        } else {
            assert_eq!(x, y);
        }
    }
}

#[test]
fn aligned_block_pads_to_longest_label() {
    let items = vec![
        (b"A:".to_vec(), b"one".to_vec()),
        (b"Long label:".to_vec(), b"two".to_vec()),
    ];
    let out = String::from_utf8(render_aligned(&items)).unwrap();
    assert_eq!(out, "A:          one\nLong label: two\n");
}
