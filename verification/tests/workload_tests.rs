use omega_bench_suite::workload::{
    crypt_get_command, crypt_read_batch, crypt_set_command, crypt_write_batch, file_payload,
    file_read_command, file_write_command, reply_body_length, run_size, tcp_get_command,
    tcp_read_batch, tcp_set_command, tcp_write_batch, transferred_bytes, RunError, RunSize,
};

#[test]
fn tcp_set_pads_key_and_repeats_x() {
    assert_eq!(
        tcp_set_command(5, 3),
        b"*3\r\n$3\r\nSET\r\n$3\r\nk05\r\n$3\r\nxxx\r\n".to_vec()
    );
    assert_eq!(
        tcp_set_command(42, 0),
        b"*3\r\n$3\r\nSET\r\n$3\r\nk42\r\n$0\r\n\r\n".to_vec()
    );
}

#[test]
fn tcp_key_above_99_keeps_three_byte_frame() {
    assert_eq!(
        tcp_set_command(100, 1),
        b"*3\r\n$3\r\nSET\r\n$3\r\nk100\r\n$1\r\nx\r\n".to_vec()
    );
    assert_eq!(tcp_get_command(100), b"*2\r\n$3\r\nGET\r\n$3\r\nk100\r\n".to_vec());
}

#[test]
fn tcp_get_of_key_seven() {
    assert_eq!(tcp_get_command(7), b"*2\r\n$3\r\nGET\r\n$3\r\nk07\r\n".to_vec());
}

#[test]
fn tcp_batches_join_commands_in_key_order() {
    let mut expected = tcp_set_command(0, 2);
    expected.extend(tcp_set_command(1, 2));
    expected.extend(tcp_set_command(2, 2));
    assert_eq!(tcp_write_batch(3, 2), expected);
    let mut reads = tcp_get_command(0);
    reads.extend(tcp_get_command(1));
    assert_eq!(tcp_read_batch(2), reads);
    assert!(tcp_write_batch(0, 64).is_empty());
}

#[test]
fn crypt_commands_frame_seven_byte_keys() {
    assert_eq!(
        crypt_set_command(3, b"abc"),
        b"*3\r\n$3\r\nSET\r\n$7\r\ncrypt03\r\n$3\r\nabc\r\n".to_vec()
    );
    assert_eq!(crypt_get_command(12), b"*2\r\n$3\r\nGET\r\n$7\r\ncrypt12\r\n".to_vec());
    assert_eq!(crypt_get_command(123), b"*2\r\n$3\r\nGET\r\n$7\r\ncrypt123\r\n".to_vec());
}

#[test]
fn crypt_batches_join_commands() {
    let mut expected = crypt_set_command(0, b"p");
    expected.extend(crypt_set_command(1, b"p"));
    assert_eq!(crypt_write_batch(2, b"p"), expected);
    let mut reads = crypt_get_command(0);
    reads.extend(crypt_get_command(1));
    reads.extend(crypt_get_command(2));
    assert_eq!(crypt_read_batch(3), reads);
}

#[test]
fn file_commands_and_payload() {
    assert_eq!(
        file_write_command(b"xy"),
        b"*3\r\n$3\r\nSET\r\n$6\r\nfile00\r\n$2\r\nxy\r\n".to_vec()
    );
    assert_eq!(file_read_command(), b"*2\r\n$3\r\nGET\r\n$6\r\nfile00\r\n".to_vec());
    let payload = file_payload(1);
    assert_eq!(payload.len(), 1024 * 1024);
    assert!(payload.iter().all(|&b| b == b'x'));
    assert!(file_payload(0).is_empty());
}

#[test]
fn run_size_counts_operations_and_batches() {
    assert_eq!(
        run_size(32, 10000, 100),
        Ok(RunSize { total_operations: 320000, batches_per_client: 100 })
    );
    assert_eq!(
        run_size(8, 100, 1),
        Ok(RunSize { total_operations: 800, batches_per_client: 100 })
    );
    assert_eq!(
        run_size(2, 7, 3),
        Ok(RunSize { total_operations: 14, batches_per_client: 2 })
    );
}

#[test]
fn run_size_refuses_zero_batches_only_with_clients() {
    assert_eq!(run_size(4, 10, 0), Err(RunError::ZeroBatch));
    assert_eq!(
        run_size(0, 10, 0),
        Ok(RunSize { total_operations: 0, batches_per_client: 0 })
    );
}

#[test]
fn transfer_and_body_sizes() {
    assert_eq!(transferred_bytes(8, 100, 1048576), 838860800);
    assert_eq!(transferred_bytes(8, 100, 0), 0);
    assert_eq!(reply_body_length(64), Some(66));
    assert_eq!(reply_body_length(usize::MAX - 2), Some(usize::MAX));
    assert_eq!(reply_body_length(usize::MAX - 1), None);
}
