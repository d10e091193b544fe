use foxprox::setup::{
    capability_present, clear_capability, cmsg_align, cmsg_len, cmsg_space, shell_quote, CapData,
    CAP_NET_ADMIN,
};

#[test]
fn clears_cap_net_admin_from_all_sets() {
    let bit = 1u32 << CAP_NET_ADMIN;
    let mut data = [
        CapData {
            effective: bit,
            permitted: bit,
            inheritable: bit,
        },
        CapData {
            effective: u32::MAX,
            permitted: u32::MAX,
            inheritable: u32::MAX,
        },
    ];

    clear_capability(&mut data, CAP_NET_ADMIN);

    assert_eq!(data[0].effective & bit, 0);
    assert_eq!(data[0].permitted & bit, 0);
    assert_eq!(data[0].inheritable & bit, 0);
    assert_eq!(data[1].effective, u32::MAX);
    assert!(!capability_present(&data, CAP_NET_ADMIN));
}

#[test]
fn clearing_keeps_other_capabilities() {
    let mut data = [
        CapData {
            effective: u32::MAX,
            permitted: 0b1010,
            inheritable: 0,
        },
        CapData {
            effective: 7,
            permitted: 7,
            inheritable: 7,
        },
    ];
    assert!(capability_present(&data, CAP_NET_ADMIN));
    clear_capability(&mut data, CAP_NET_ADMIN);
    assert_eq!(data[0].effective, u32::MAX & !(1 << 12));
    assert_eq!(data[0].permitted, 0b1010);
    assert_eq!(data[1].effective, 7);
    assert!(capability_present(&data, 1));
    assert!(capability_present(&data, 33));
    assert!(!capability_present(&data, 40));
}

#[test]
fn shell_quote_handles_single_quotes() {
    assert_eq!(shell_quote("a'b"), "'a'\\''b'");
}

#[test]
fn shell_quote_wraps_plain_and_empty_values() {
    assert_eq!(shell_quote(""), "''");
    assert_eq!(shell_quote("http://10.66.0.1:3128"), "'http://10.66.0.1:3128'");
    assert_eq!(shell_quote("''"), "''\\'''\\'''");
}

#[test]
fn cmsg_sizes_round_to_usize_alignment() {
    let align = std::mem::size_of::<usize>();
    assert_eq!(cmsg_align(0), 0);
    assert_eq!(cmsg_align(1), align);
    assert_eq!(cmsg_align(align), align);
    assert_eq!(cmsg_align(align + 1), 2 * align);
    assert_eq!(cmsg_len(16, 4), 20);
    assert_eq!(cmsg_space(16, 4), 16 + align);
}
