use kmemsnoop::utils::{cast, get_online_cpus, hexstr2int, uname_version};

#[test]
fn cpus_mixed_list_is_expanded() {
    assert_eq!(get_online_cpus("0-2,5"), Some(vec![0, 1, 2, 5]));
    assert_eq!(get_online_cpus("0-3,7"), Some(vec![0, 1, 2, 3, 7]));
}

#[test]
fn cpus_single_ids_and_ranges() {
    assert_eq!(get_online_cpus("0"), Some(vec![0]));
    assert_eq!(get_online_cpus("3"), Some(vec![3]));
    assert_eq!(get_online_cpus("0-0"), Some(vec![0]));
    assert_eq!(get_online_cpus("1,3,5"), Some(vec![1, 3, 5]));
    assert_eq!(get_online_cpus("0-1,4-5,8"), Some(vec![0, 1, 4, 5, 8]));
    assert_eq!(get_online_cpus("10-12"), Some(vec![10, 11, 12]));
}

#[test]
fn cpus_surrounding_white_space_is_cut_off() {
    assert_eq!(get_online_cpus("0-3\n"), Some(vec![0, 1, 2, 3]));
    assert_eq!(get_online_cpus("  0-1,3 \t\n"), Some(vec![0, 1, 3]));
}

#[test]
fn cpus_expansion_is_ascending_and_without_duplicates() {
    let cpus = get_online_cpus("0-7,16-23,40,63-64").unwrap();
    assert_eq!(cpus.len(), 19);
    for pair in cpus.windows(2) {
        assert!(pair[0] < pair[1]);
    }
    for id in [0, 7, 16, 23, 40, 63, 64] {
        assert!(cpus.contains(&id));
    }
    for id in [8, 15, 24, 39, 41, 62, 65] {
        assert!(!cpus.contains(&id));
    }
}

#[test]
fn cpus_list_follows_the_order_of_its_items() {
    assert_eq!(get_online_cpus("5,0-2"), Some(vec![5, 0, 1, 2]));
    assert_eq!(get_online_cpus("3-1"), Some(vec![]));
    assert_eq!(get_online_cpus("3-1,2"), Some(vec![2]));
}

#[test]
fn cpus_malformed_list_has_no_expansion() {
    assert_eq!(get_online_cpus(""), None);
    assert_eq!(get_online_cpus("\n"), None);
    assert_eq!(get_online_cpus("a"), None);
    assert_eq!(get_online_cpus("0,"), None);
    assert_eq!(get_online_cpus(",0"), None);
    assert_eq!(get_online_cpus("0,,1"), None);
    assert_eq!(get_online_cpus("0-"), None);
    assert_eq!(get_online_cpus("-1"), None);
    assert_eq!(get_online_cpus("0-1-2"), None);
    assert_eq!(get_online_cpus("0 1"), None);
    assert_eq!(get_online_cpus("+1"), None);
    assert_eq!(get_online_cpus("2147483648"), None);
    assert_eq!(get_online_cpus("0x1"), None);
}

#[test]
fn cpus_largest_id_is_accepted() {
    assert_eq!(
        get_online_cpus("2147483646-2147483647"),
        Some(vec![2147483646, 2147483647])
    );
    assert_eq!(get_online_cpus("007"), Some(vec![7]));
}

#[test]
fn version_is_read_from_release() {
    assert_eq!(uname_version("5.15.0-91-generic"), Some((5, 15)));
    assert_eq!(uname_version("6.5.0-14-generic"), Some((6, 5)));
    assert_eq!(uname_version("6.0"), Some((6, 0)));
    assert_eq!(uname_version("6.0.0"), Some((6, 0)));
    assert_eq!(uname_version("4.19-rc1"), Some((4, 19)));
    assert_eq!(uname_version("10.02.3"), Some((10, 2)));
}

#[test]
fn version_malformed_release_has_none() {
    assert_eq!(uname_version(""), None);
    assert_eq!(uname_version("6"), None);
    assert_eq!(uname_version("6."), None);
    assert_eq!(uname_version(".5"), None);
    assert_eq!(uname_version("v6.5"), None);
    assert_eq!(uname_version("6.x"), None);
    assert_eq!(uname_version("#1 SMP PREEMPT_DYNAMIC"), None);
    assert_eq!(uname_version("4294967296.1"), None);
    assert_eq!(uname_version("1.4294967296"), None);
    assert_eq!(uname_version("4294967295.4294967295"), Some((4294967295, 4294967295)));
}

#[test]
fn hex_literal_is_read() {
    assert_eq!(hexstr2int("ffffffff81000000"), Some(0xffffffff81000000));
    assert_eq!(hexstr2int("0xffffffff81000000"), Some(0xffffffff81000000));
    assert_eq!(hexstr2int("0XABCDEF"), Some(0xabcdef));
    assert_eq!(hexstr2int("0"), Some(0));
    assert_eq!(hexstr2int("0x0"), Some(0));
    assert_eq!(hexstr2int("dead"), Some(0xdead));
    assert_eq!(hexstr2int("DeadBeef"), Some(0xdeadbeef));
    assert_eq!(hexstr2int("ffffffffffffffff"), Some(usize::MAX));
    assert_eq!(hexstr2int("0000000000000000000010"), Some(0x10));
}

#[test]
fn hex_literal_rejects_what_is_no_number() {
    assert_eq!(hexstr2int(""), None);
    assert_eq!(hexstr2int("0x"), None);
    assert_eq!(hexstr2int("jiffies"), None);
    assert_eq!(hexstr2int("parent"), None);
    assert_eq!(hexstr2int("12g"), None);
    assert_eq!(hexstr2int(" 12"), None);
    assert_eq!(hexstr2int("12 "), None);
    assert_eq!(hexstr2int("-12"), None);
    assert_eq!(hexstr2int("+12"), None);
    assert_eq!(hexstr2int("10000000000000000"), None);
    assert_eq!(hexstr2int("0x0x1"), None);
}

#[test]
fn cast_reads_a_word_in_machine_order() {
    let bytes = [1u8, 2, 3, 4, 5, 6, 7, 8, 9, 10, 11, 12, 13, 14, 15, 16, 17];
    assert_eq!(
        cast(&bytes, 0),
        Some(u64::from_ne_bytes([1, 2, 3, 4, 5, 6, 7, 8]))
    );
    assert_eq!(
        cast(&bytes, 1),
        Some(u64::from_ne_bytes([2, 3, 4, 5, 6, 7, 8, 9]))
    );
    assert_eq!(
        cast(&bytes, 9),
        Some(u64::from_ne_bytes([10, 11, 12, 13, 14, 15, 16, 17]))
    );
    let word = cast(&bytes, 0).unwrap();
    assert!(word == 0x0807060504030201 || word == 0x0102030405060708);
}

#[test]
fn cast_needs_eight_bytes() {
    let bytes = [0u8; 17];
    assert_eq!(cast(&bytes, 10), None);
    assert_eq!(cast(&bytes, 17), None);
    assert_eq!(cast(&bytes, 18), None);
    assert_eq!(cast(&bytes, usize::MAX), None);
    assert_eq!(cast(&bytes[..7], 0), None);
    assert_eq!(cast(&[], 0), None);
    assert_eq!(cast(&bytes[..8], 0), Some(0));
}
