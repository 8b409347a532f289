use omega_bench_suite::batched::{client_commands, mget_command, mset_command, BatchError};

const VALUE: &str = "val64_0123456789abcdef0123456789abcdef0123456789abcdef0123456789";

#[test]
fn mset_sets_each_key_to_the_value() {
    let expected = format!(
        "*5\r\n$4\r\nMSET\r\n$6\r\nc3_k10\r\n$64\r\n{v}\r\n$6\r\nc3_k11\r\n$64\r\n{v}\r\n",
        v = VALUE
    );
    assert_eq!(mset_command(3, 10, 2), expected.into_bytes());
    assert_eq!(mset_command(0, 0, 0), b"*1\r\n$4\r\nMSET\r\n".to_vec());
}

#[test]
fn mget_reads_each_key() {
    assert_eq!(
        mget_command(12, 998, 3),
        b"*4\r\n$4\r\nMGET\r\n$8\r\nc12_k998\r\n$8\r\nc12_k999\r\n$9\r\nc12_k1000\r\n".to_vec()
    );
}

#[test]
fn client_commands_step_through_keys() {
    let (msets, mgets) = client_commands(1, 5, 2).unwrap();
    assert_eq!(msets, vec![mset_command(1, 0, 2), mset_command(1, 2, 2), mset_command(1, 4, 2)]);
    assert_eq!(mgets, vec![mget_command(1, 0, 2), mget_command(1, 2, 2), mget_command(1, 4, 2)]);
    let (msets, mgets) = client_commands(7, 4, 2).unwrap();
    assert_eq!(msets.len(), 2);
    assert_eq!(mgets[1], mget_command(7, 2, 2));
    let (msets, mgets) = client_commands(0, 0, 5).unwrap();
    assert!(msets.is_empty() && mgets.is_empty());
}

#[test]
fn client_commands_refuse_zero_batches() {
    assert_eq!(client_commands(0, 10, 0), Err(BatchError::ZeroBatch));
    assert_eq!(client_commands(0, 0, 0), Err(BatchError::ZeroBatch));
}

#[test]
fn client_commands_refuse_counts_that_overflow() {
    assert_eq!(client_commands(0, 10, usize::MAX / 2 + 1), Err(BatchError::Overflow));
    let (msets, _) = client_commands(0, 0, usize::MAX / 2 + 1).unwrap();
    assert!(msets.is_empty());
}
