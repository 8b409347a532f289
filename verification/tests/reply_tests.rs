use omega_bench_suite::reply::{
    classify_bulk_line, on_body, on_line, start_array_reply, BulkLine, ReplyAction, ReplyError,
    ReplyPhase,
};
use omega_bench_suite::resp::encode_command;
use omega_bench_suite::workload::{crypt_write_batch, tcp_read_batch, tcp_set_command, tcp_write_batch};

/// Reads a reply from `input` as the reader asks; returns the bytes consumed.
fn drive(input: &[u8]) -> Result<usize, String> {
    let (mut phase, mut action) = start_array_reply();
    let mut pos = 0;
    loop {
        match action {
            ReplyAction::Finish => return Ok(pos),
            ReplyAction::ReadLine => {
                let end = input[pos..].iter().position(|&b| b == b'\n').ok_or("no line")? + pos + 1;
                let line = std::str::from_utf8(&input[pos..end]).map_err(|e| e.to_string())?;
                pos = end;
                let (p, a) = on_line(phase, line).map_err(|e| format!("{:?}", e))?;
                phase = p;
                action = a;
            }
            ReplyAction::ReadExact(n) => {
                if input.len() - pos < n {
                    return Err("short body".into());
                }
                pos += n;
                let (p, a) = on_body(phase).map_err(|e| format!("{:?}", e))?;
                phase = p;
                action = a;
            }
        }
    }
}

#[test]
fn header_line_opens_elements() {
    assert_eq!(
        on_line(ReplyPhase::AwaitHeader, "*2\r\n"),
        Ok((ReplyPhase::AwaitElement { rest: 1 }, ReplyAction::ReadLine))
    );
    assert_eq!(
        on_line(ReplyPhase::AwaitHeader, "*0\r\n"),
        Ok((ReplyPhase::Finished, ReplyAction::Finish))
    );
    assert_eq!(
        on_line(ReplyPhase::AwaitHeader, "+OK\r\n"),
        Ok((ReplyPhase::Finished, ReplyAction::Finish))
    );
    assert_eq!(on_line(ReplyPhase::AwaitHeader, "*x\r\n"), Err(ReplyError::BadCount));
    assert_eq!(on_line(ReplyPhase::AwaitHeader, "*\r\n"), Err(ReplyError::BadCount));
    assert_eq!(on_line(ReplyPhase::AwaitHeader, "*-1\r\n"), Err(ReplyError::BadCount));
}

#[test]
fn counts_are_read_as_usize_from_str_reads_them() {
    assert_eq!(
        on_line(ReplyPhase::AwaitHeader, "*+3\r\n"),
        Ok((ReplyPhase::AwaitElement { rest: 2 }, ReplyAction::ReadLine))
    );
    assert_eq!(
        on_line(ReplyPhase::AwaitHeader, "* \u{a0}007\u{3000}\r\n"),
        Ok((ReplyPhase::AwaitElement { rest: 6 }, ReplyAction::ReadLine))
    );
    assert_eq!(on_line(ReplyPhase::AwaitHeader, "*+\r\n"), Err(ReplyError::BadCount));
    assert_eq!(on_line(ReplyPhase::AwaitHeader, "*1 2\r\n"), Err(ReplyError::BadCount));
    assert_eq!(
        on_line(ReplyPhase::AwaitHeader, "*18446744073709551616\r\n"),
        Err(ReplyError::BadCount)
    );
}

#[test]
fn element_lines_ask_for_bodies() {
    assert_eq!(
        on_line(ReplyPhase::AwaitElement { rest: 1 }, "$5\r\n"),
        Ok((ReplyPhase::AwaitBody { rest: 1, length: 7 }, ReplyAction::ReadExact(7)))
    );
    assert_eq!(
        on_line(ReplyPhase::AwaitElement { rest: 0 }, ":12\r\n"),
        Ok((ReplyPhase::AwaitBody { rest: 0, length: 14 }, ReplyAction::ReadExact(14)))
    );
    assert_eq!(
        on_line(ReplyPhase::AwaitElement { rest: 2 }, "$-1\r\n"),
        Ok((ReplyPhase::AwaitElement { rest: 1 }, ReplyAction::ReadLine))
    );
    assert_eq!(
        on_line(ReplyPhase::AwaitElement { rest: 0 }, "$-1\r\n"),
        Ok((ReplyPhase::Finished, ReplyAction::Finish))
    );
    assert_eq!(
        on_body(ReplyPhase::AwaitBody { rest: 0, length: 7 }),
        Ok((ReplyPhase::Finished, ReplyAction::Finish))
    );
    assert_eq!(
        on_body(ReplyPhase::AwaitBody { rest: 3, length: 7 }),
        Ok((ReplyPhase::AwaitElement { rest: 2 }, ReplyAction::ReadLine))
    );
}

#[test]
fn element_line_errors() {
    let e = ReplyPhase::AwaitElement { rest: 0 };
    assert_eq!(on_line(e, ""), Err(ReplyError::MalformedLine));
    assert_eq!(on_line(e, "é5\r\n"), Err(ReplyError::MalformedLine));
    assert_eq!(on_line(e, "$abc\r\n"), Err(ReplyError::BadLength));
    assert_eq!(on_line(e, "$-2\r\n"), Err(ReplyError::BadLength));
    assert_eq!(on_line(e, "$18446744073709551614\r\n"), Err(ReplyError::LengthOverflow));
    assert_eq!(
        on_line(e, "$18446744073709551613\r\n"),
        Ok((ReplyPhase::AwaitBody { rest: 0, length: usize::MAX }, ReplyAction::ReadExact(usize::MAX)))
    );
}

#[test]
fn steps_out_of_turn_are_refused() {
    assert_eq!(on_line(ReplyPhase::Finished, "*1\r\n"), Err(ReplyError::UnexpectedLine));
    assert_eq!(
        on_line(ReplyPhase::AwaitBody { rest: 0, length: 3 }, "$1\r\n"),
        Err(ReplyError::UnexpectedLine)
    );
    assert_eq!(on_body(ReplyPhase::AwaitHeader), Err(ReplyError::UnexpectedBody));
    assert_eq!(on_body(ReplyPhase::Finished), Err(ReplyError::UnexpectedBody));
}

#[test]
fn reader_consumes_an_encoded_command_exactly() {
    let cmd = encode_command(&vec![b"MSET".to_vec(), b"key\nwith newline".to_vec(), Vec::new()]);
    let mut input = cmd.clone();
    input.extend_from_slice(b"*1\r\n$1\r\nz\r\n");
    assert_eq!(drive(&input), Ok(cmd.len()));
    assert_eq!(drive(b"*0\r\n+OK\r\n"), Ok(4));
}

#[test]
fn reader_reads_mget_reply_with_nulls() {
    let reply = b"*3\r\n$2\r\nab\r\n$-1\r\n$0\r\n\r\n";
    assert_eq!(drive(reply), Ok(reply.len()));
}

#[test]
fn bulk_lines_of_the_string_reader() {
    assert_eq!(classify_bulk_line("$160\r\n"), Ok(BulkLine::Body { length: 160, read: 162 }));
    assert_eq!(classify_bulk_line("$ 5 \r\n"), Ok(BulkLine::Body { length: 5, read: 7 }));
    assert_eq!(classify_bulk_line("$-1\r\n"), Ok(BulkLine::Skip));
    assert_eq!(classify_bulk_line(":5\r\n"), Ok(BulkLine::Skip));
    assert_eq!(classify_bulk_line(""), Ok(BulkLine::Skip));
    assert_eq!(classify_bulk_line("$18446744073709551615\r\n"), Err(ReplyError::LengthOverflow));
}

#[test]
fn pipelined_batches_read_back_command_by_command() {
    for batch in [tcp_write_batch(3, 64), tcp_read_batch(100), crypt_write_batch(2, b"payload")] {
        let mut pos = 0;
        let mut commands = 0;
        while pos < batch.len() {
            pos += drive(&batch[pos..]).unwrap();
            commands += 1;
        }
        assert_eq!(pos, batch.len());
        assert!(commands == 3 || commands == 100 || commands == 2);
    }
}

#[test]
fn key_one_hundred_is_framed_short() {
    let cmd = tcp_set_command(100, 0);
    assert_ne!(drive(&cmd), Ok(cmd.len()));
}
