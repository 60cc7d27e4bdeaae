use podbench::assets::{batch_path, rendezvous_endpoint, zero_padded_decimal, BATCH_NUMBER_WIDTH};
use podbench::partition::partition;
use podbench::role::Role;

#[test]
fn batch_files_are_numbered_in_six_digits() {
    assert_eq!(BATCH_NUMBER_WIDTH, 6);
    assert_eq!(batch_path(0), "/home/ubuntu/assets/batches/000000.pod");
    assert_eq!(batch_path(7), "/home/ubuntu/assets/batches/000007.pod");
    assert_eq!(batch_path(42), "/home/ubuntu/assets/batches/000042.pod");
    assert_eq!(batch_path(120_305), "/home/ubuntu/assets/batches/120305.pod");
    assert_eq!(batch_path(999_999), "/home/ubuntu/assets/batches/999999.pod");
}

#[test]
fn batch_number_grows_past_six_digits() {
    assert_eq!(batch_path(1_000_000), "/home/ubuntu/assets/batches/1000000.pod");
    assert_eq!(batch_path(4_294_967_295), "/home/ubuntu/assets/batches/4294967295.pod");
}

#[test]
fn batch_path_agrees_with_the_standard_formatting() {
    for index in (0..2_000_000usize).step_by(7919) {
        assert_eq!(batch_path(index), format!("/home/ubuntu/assets/batches/{:06}.pod", index));
    }
    assert_eq!(
        batch_path(usize::MAX),
        format!("/home/ubuntu/assets/batches/{:06}.pod", usize::MAX)
    );
}

#[test]
fn zero_padding_fills_up_to_the_width_only() {
    assert_eq!(zero_padded_decimal(0, 0), "0");
    assert_eq!(zero_padded_decimal(0, 1), "0");
    assert_eq!(zero_padded_decimal(0, 3), "000");
    assert_eq!(zero_padded_decimal(5, 2), "05");
    assert_eq!(zero_padded_decimal(10, 2), "10");
    assert_eq!(zero_padded_decimal(100, 2), "100");
    assert_eq!(zero_padded_decimal(9090, 8), "00009090");
    assert_eq!(zero_padded_decimal(1234567890, 4), "1234567890");
}

#[test]
fn files_of_a_partition_are_those_of_its_indices() {
    let range = partition(0, 1, 2, 3);
    let files: Vec<String> = (range.start..range.end).map(batch_path).collect();
    assert_eq!(
        files,
        vec![
            "/home/ubuntu/assets/batches/000003.pod",
            "/home/ubuntu/assets/batches/000004.pod",
            "/home/ubuntu/assets/batches/000005.pod",
        ]
    );
}

#[test]
fn rendezvous_endpoint_is_host_and_port() {
    assert_eq!(rendezvous_endpoint("10.0.0.7"), "10.0.0.7:6000");
    assert_eq!(rendezvous_endpoint("rendezvous.local"), "rendezvous.local:6000");
    assert_eq!(rendezvous_endpoint(""), ":6000");
}

#[test]
fn role_is_read_from_its_name() {
    assert_eq!(Role::parse("rendezvous"), Some(Role::Rendezvous));
    assert_eq!(Role::parse("server"), Some(Role::Server));
    assert_eq!(Role::parse("broker"), Some(Role::Broker));
}

#[test]
fn role_of_any_other_name_is_none() {
    assert_eq!(Role::parse(""), None);
    assert_eq!(Role::parse("Server"), None);
    assert_eq!(Role::parse("server "), None);
    assert_eq!(Role::parse("brokers"), None);
    assert_eq!(Role::parse("rendez-vous"), None);
    assert_eq!(Role::parse("client"), None);
}
