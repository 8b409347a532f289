use omega_bench_suite::resp::{encode_command, push_array_header, push_bulk, push_bulk_framed, push_crlf, push_decimal};

fn decimal_of(n: usize) -> Vec<u8> {
    let mut out = Vec::new();
    push_decimal(&mut out, n);
    out
}

#[test]
fn decimal_writes_plain_digits() {
    assert_eq!(decimal_of(0), b"0".to_vec());
    assert_eq!(decimal_of(7), b"7".to_vec());
    assert_eq!(decimal_of(10), b"10".to_vec());
    assert_eq!(decimal_of(12345), b"12345".to_vec());
    assert_eq!(decimal_of(usize::MAX), usize::MAX.to_string().into_bytes());
}

#[test]
fn decimal_appends_to_what_is_there() {
    let mut out = b"ab".to_vec();
    push_decimal(&mut out, 42);
    push_crlf(&mut out);
    assert_eq!(out, b"ab42\r\n".to_vec());
}

#[test]
fn bulk_and_header_framing() {
    let mut out = Vec::new();
    push_array_header(&mut out, 2);
    push_bulk(&mut out, b"GET");
    push_bulk_framed(&mut out, 3, b"k100");
    assert_eq!(out, b"*2\r\n$3\r\nGET\r\n$3\r\nk100\r\n".to_vec());
}

#[test]
fn command_encoding_matches_resp() {
    let args = vec![b"SET".to_vec(), b"k".to_vec(), b"value".to_vec()];
    assert_eq!(encode_command(&args), b"*3\r\n$3\r\nSET\r\n$1\r\nk\r\n$5\r\nvalue\r\n".to_vec());
}

#[test]
fn command_with_no_arguments_or_empty_ones() {
    assert_eq!(encode_command(&Vec::new()), b"*0\r\n".to_vec());
    assert_eq!(encode_command(&vec![Vec::new()]), b"*1\r\n$0\r\n\r\n".to_vec());
}
