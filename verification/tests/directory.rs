use podbench::directory::{
    shard_sizes, AwaitError, Directory, PublishError, BROKER_SHARD, SERVER_SHARD,
};

#[test]
fn shard_is_not_ready_until_target_is_reached() {
    let mut directory = Directory::new(vec![3]);
    assert_eq!(directory.await_shard(0), Err(AwaitError::NotReady));
    assert_eq!(directory.publish(11, 0), Ok(()));
    assert_eq!(directory.await_shard(0), Err(AwaitError::NotReady));
    assert_eq!(directory.publish(22, 0), Ok(()));
    assert_eq!(directory.published(0), Some(2));
    assert_eq!(directory.await_shard(0), Err(AwaitError::NotReady));
    assert_eq!(directory.publish(33, 0), Ok(()));
    assert_eq!(directory.await_shard(0), Ok(vec![11, 22, 33]));
}

#[test]
fn members_come_out_in_order_of_publication() {
    let mut directory = Directory::new(vec![4]);
    for identity in [40u64, 10, 30, 20] {
        assert_eq!(directory.publish(identity, 0), Ok(()));
    }
    assert_eq!(directory.await_shard(0), Ok(vec![40, 10, 30, 20]));
    // Reading changes nothing.
    assert_eq!(directory.await_shard(0), Ok(vec![40, 10, 30, 20]));
}

#[test]
fn publish_to_unknown_shard_is_refused() {
    let mut directory = Directory::new(vec![1, 1]);
    assert_eq!(directory.publish(1, 2), Err(PublishError::UnknownShard));
    assert_eq!(directory.published(0), Some(0));
    assert_eq!(directory.published(1), Some(0));
    assert_eq!(directory.published(2), None);
}

#[test]
fn publish_of_registered_identity_is_refused() {
    let mut directory = Directory::new(vec![2, 2]);
    assert_eq!(directory.publish(7, 0), Ok(()));
    assert_eq!(directory.publish(7, 0), Err(PublishError::AlreadyPublished));
    assert_eq!(directory.publish(7, 1), Err(PublishError::AlreadyPublished));
    assert_eq!(directory.published(0), Some(1));
    assert_eq!(directory.published(1), Some(0));
    assert!(directory.is_registered(7));
    assert!(!directory.is_registered(8));
}

#[test]
fn publish_to_full_shard_is_refused() {
    let mut directory = Directory::new(vec![1]);
    assert_eq!(directory.publish(1, 0), Ok(()));
    assert_eq!(directory.publish(2, 0), Err(PublishError::ShardFull));
    assert_eq!(directory.await_shard(0), Ok(vec![1]));
    assert!(!directory.is_registered(2));
}

#[test]
fn unknown_shard_comes_before_other_refusals() {
    let mut directory = Directory::new(vec![1]);
    assert_eq!(directory.publish(1, 0), Ok(()));
    // Registered already, but the shard does not exist.
    assert_eq!(directory.publish(1, 5), Err(PublishError::UnknownShard));
    // Registered already, and the shard is full.
    assert_eq!(directory.publish(1, 0), Err(PublishError::AlreadyPublished));
}

#[test]
fn await_of_unknown_shard_is_refused() {
    let directory = Directory::new(vec![1, 1]);
    assert_eq!(directory.await_shard(2), Err(AwaitError::UnknownShard));
    let empty = Directory::new(vec![]);
    assert_eq!(empty.shard_count(), 0);
    assert_eq!(empty.await_shard(0), Err(AwaitError::UnknownShard));
}

#[test]
fn shard_with_target_zero_is_ready_at_once() {
    let mut directory = Directory::new(vec![0]);
    assert_eq!(directory.await_shard(0), Ok(vec![]));
    assert_eq!(directory.publish(1, 0), Err(PublishError::ShardFull));
}

#[test]
fn shards_fill_independently() {
    let mut directory = Directory::new(vec![2, 1]);
    assert_eq!(directory.publish(100, 1), Ok(()));
    assert_eq!(directory.await_shard(1), Ok(vec![100]));
    assert_eq!(directory.await_shard(0), Err(AwaitError::NotReady));
    assert_eq!(directory.publish(1, 0), Ok(()));
    assert_eq!(directory.publish(2, 0), Ok(()));
    assert_eq!(directory.await_shard(0), Ok(vec![1, 2]));
    assert_eq!(directory.await_shard(1), Ok(vec![100]));
}

#[test]
fn fleet_directory_has_a_shard_for_servers_and_one_for_brokers() {
    assert_eq!(shard_sizes(5, 3), vec![5, 3]);
    assert_eq!(SERVER_SHARD, 0);
    assert_eq!(BROKER_SHARD, 1);
    let directory = Directory::for_fleet(5, 3);
    assert_eq!(directory.shard_count(), 2);
    assert_eq!(directory.target(SERVER_SHARD), Some(5));
    assert_eq!(directory.target(BROKER_SHARD), Some(3));
    assert_eq!(directory.target(2), None);
    assert_eq!(directory.published(SERVER_SHARD), Some(0));
    assert_eq!(directory.published(BROKER_SHARD), Some(0));
}
