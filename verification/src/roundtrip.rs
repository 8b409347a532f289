//! What the reply reader makes of the bytes the command writer produces: the
//! reader reads back every count and length the writer wrote, and consumes a
//! whole command and nothing after it.

use vstd::prelude::*;
use vstd::utf8::{decode_utf8, valid_utf8, pop_first_scalar};
use crate::resp::{array_header, bulk, bulk_framed, bulks, command, crlf, decimal, lemma_bulks_push};
use crate::text::{digits_value, field_after_first, is_digit, is_whitespace, trim, trim_end, trim_start};
use crate::reply::{
    after_element, bulk_line_decision, line_len, line_step, reply_consumes, BulkLine, ReplyAction, ReplyError,
    ReplyPhase,
};
use crate::workload::{
    concat_each, crypt_get, crypt_key, crypt_set, get_word, repeated, set_word, tcp_get, tcp_key,
    tcp_set, two_digits,
};

verus! {

/// The characters of ASCII bytes.
pub open spec fn ascii_text(bytes: Seq<u8>) -> Seq<char> {
    bytes.map_values(|b: u8| b as char)
}

/// Every byte of a decimal number is an ASCII digit.
pub proof fn lemma_decimal_digits(n: nat)
    ensures
        decimal(n).len() >= 1,
        forall|i: int| 0 <= i < decimal(n).len() ==> 48 <= #[trigger] decimal(n)[i] <= 57,
    decreases n,
{
    if n >= 10 {
        lemma_decimal_digits(n / 10);
    }
}

/// ASCII bytes are valid UTF-8 and decode to the characters with the same codes.
pub proof fn lemma_ascii_utf8(bytes: Seq<u8>)
    requires
        forall|i: int| 0 <= i < bytes.len() ==> #[trigger] bytes[i] < 128,
    ensures
        valid_utf8(bytes),
        decode_utf8(bytes) == ascii_text(bytes),
    decreases bytes.len(),
{
    if bytes.len() > 0 {
        let b = bytes[0];
        assert(b & 0x7f == b) by (bit_vector)
            requires
                b < 128,
        ;
        assert(pop_first_scalar(bytes) =~= bytes.drop_first());
        lemma_ascii_utf8(bytes.drop_first());
        assert(decode_utf8(bytes) =~= ascii_text(bytes));
    } else {
        assert(decode_utf8(bytes) =~= ascii_text(bytes));
    }
}

/// A line that ends in its only `\n` is read whole, whatever follows it.
pub proof fn lemma_line_len_terminated(line: Seq<u8>, rest: Seq<u8>)
    requires
        line.len() >= 1,
        line.last() == 10,
        forall|i: int| 0 <= i < line.len() - 1 ==> #[trigger] line[i] != 10,
    ensures
        line_len(line + rest) == Some(line.len()),
    decreases line.len(),
{
    if line.len() > 1 {
        lemma_line_len_terminated(line.drop_first(), rest);
        assert((line + rest).drop_first() =~= line.drop_first() + rest);
    }
}

/// The digits of `n` read back as `n`.
pub proof fn lemma_digits_value_decimal(n: nat)
    ensures
        digits_value(ascii_text(decimal(n))) == n,
        forall|i: int| 0 <= i < ascii_text(decimal(n)).len() ==> is_digit(#[trigger] ascii_text(decimal(n))[i]),
        ascii_text(decimal(n)).len() >= 1,
    decreases n,
{
    lemma_decimal_digits(n);
    let t = ascii_text(decimal(n));
    assert forall|i: int| 0 <= i < t.len() implies is_digit(#[trigger] t[i]) by {
        let b = decimal(n)[i];
        assert(48 <= b <= 57);
        assert((b as char) as u32 == b as u32);
    }
    if n >= 10 {
        lemma_digits_value_decimal(n / 10);
        assert(t.drop_last() =~= ascii_text(decimal(n / 10)));
        let d = (48 + n % 10) as u8;
        assert(decimal(n).last() == d);
        assert(t.last() == d as char);
        assert((d as char) as u32 == d as u32);
        assert(digits_value(t) == digits_value(t.drop_last()) * 10 + ((t.last() as u32) - 48) as nat);
        assert(n == (n / 10) * 10 + n % 10);
    } else {
        let d = (48 + n) as u8;
        assert(decimal(n) =~= seq![d]);
        assert(t.last() == d as char);
        assert((d as char) as u32 == d as u32);
        assert(t.drop_last() =~= Seq::<char>::empty());
        assert(digits_value(t.drop_last()) == 0);
        assert(digits_value(t) == digits_value(t.drop_last()) * 10 + ((t.last() as u32) - 48) as nat);
    }
}

/// Trimming digits followed by `\r\n` leaves the digits.
pub proof fn lemma_trim_digits_crlf(d: Seq<char>)
    requires
        d.len() >= 1,
        forall|i: int| 0 <= i < d.len() ==> is_digit(#[trigger] d[i]),
    ensures
        trim(d + seq!['\r', '\n']) == d,
{
    let s = d + seq!['\r', '\n'];
    assert(is_digit(d[0]));
    assert(!is_whitespace(s[0]));
    assert(trim_start(s) == s);
    let s1 = d + seq!['\r'];
    assert(s.drop_last() =~= s1);
    assert(s1.drop_last() =~= d);
    assert(('\n' as u32) == 10);
    assert(('\r' as u32) == 13);
    assert(is_whitespace(s.last()));
    assert(trim_end(s) == trim_end(s1));
    assert(is_whitespace(s1.last()));
    assert(trim_end(s1) == trim_end(d));
    assert(is_digit(d.last()));
    assert(!is_whitespace(d.last()));
    assert(trim_end(d) == d);
}

/// The number after the first character of `[c] + digits(n) + "\r\n"` is `n`.
pub proof fn lemma_field_of_numbered_line(lead: u8, n: nat)
    requires
        n <= usize::MAX,
    ensures
        field_after_first(ascii_text(seq![lead] + decimal(n) + crlf())) == Some(n as usize),
{
    lemma_digits_value_decimal(n);
    let d = ascii_text(decimal(n));
    let line = ascii_text(seq![lead] + decimal(n) + crlf());
    assert(line.drop_first() =~= d + seq!['\r', '\n']);
    lemma_trim_digits_crlf(d);
    assert(is_digit(d[0]));
}

/// The bytes of `[c] + digits(n) + "\r\n"` form one ASCII line.
pub proof fn lemma_numbered_line_shape(lead: u8, n: nat, rest: Seq<u8>)
    requires
        lead < 128,
        lead != 10,
    ensures
        line_len(seq![lead] + decimal(n) + crlf() + rest) == Some((seq![lead] + decimal(n) + crlf()).len()),
        valid_utf8(seq![lead] + decimal(n) + crlf()),
        decode_utf8(seq![lead] + decimal(n) + crlf()) == ascii_text(seq![lead] + decimal(n) + crlf()),
{
    lemma_decimal_digits(n);
    let line = seq![lead] + decimal(n) + crlf();
    assert forall|i: int| 0 <= i < line.len() implies #[trigger] line[i] < 128 by {
        if 1 <= i < line.len() - 2 {
            assert(line[i] == decimal(n)[i - 1]);
        }
    }
    assert forall|i: int| 0 <= i < line.len() - 1 implies #[trigger] line[i] != 10 by {
        if 1 <= i < line.len() - 2 {
            assert(line[i] == decimal(n)[i - 1]);
        }
    }
    lemma_line_len_terminated(line, rest);
    lemma_ascii_utf8(line);
}

/// Law: the reader takes the header of an array of `n` elements for what it is,
/// and goes on to read `n` elements.
pub proof fn law_array_header_read_back(n: nat)
    requires
        n <= usize::MAX,
    ensures
        line_step(ReplyPhase::AwaitHeader, ascii_text(array_header(n))) == Ok::<_, crate::reply::ReplyError>(after_element(n)),
{
    lemma_field_of_numbered_line(42u8, n);
    let line = ascii_text(array_header(n));
    assert(line[0] == '*');
}

/// Law: the reader takes the header of a bulk string of `len` bytes for what it
/// is, and asks for the `len` bytes and their closing `\r\n`.
pub proof fn law_bulk_header_read_back(rest: usize, len: nat)
    requires
        len + 2 <= usize::MAX,
    ensures
        line_step(ReplyPhase::AwaitElement { rest }, ascii_text(seq![36u8] + decimal(len) + crlf()))
            == Ok::<_, crate::reply::ReplyError>((
                ReplyPhase::AwaitBody { rest, length: (len + 2) as usize },
                ReplyAction::ReadExact((len + 2) as usize),
            )),
{
    lemma_field_of_numbered_line(36u8, len);
    lemma_decimal_digits(len);
    let line = ascii_text(seq![36u8] + decimal(len) + crlf());
    assert(line[0] == '$');
    let d1 = decimal(len)[0];
    assert(line[1] == d1 as char);
    assert((d1 as char) as u32 == d1 as u32);
    assert(line[1] != '-');
}

/// Law: on the header line of a bulk string that the writer framed, the
/// string-reply reader decides to read exactly what follows the header in that
/// bulk string: the data and its closing `\r\n`, up to the string's last byte.
pub proof fn law_bulk_reply_read_exactly(data: Seq<u8>)
    requires
        data.len() + 2 <= usize::MAX,
    ensures
        ({
            let header = seq![36u8] + decimal(data.len()) + crlf();
            let whole = bulk(data);
            &&& whole.take(header.len() as int) == header
            &&& bulk_line_decision(ascii_text(header)) == Ok::<BulkLine, ReplyError>(
                BulkLine::Body { length: data.len() as usize, read: (data.len() + 2) as usize },
            )
            &&& header.len() + data.len() + 2 == whole.len()
            &&& whole.skip(header.len() as int) == data + crlf()
        }),
{
    let n = data.len();
    lemma_field_of_numbered_line(36u8, n);
    let header = seq![36u8] + decimal(n) + crlf();
    let whole = bulk(data);
    assert(whole =~= header + data + crlf());
    assert(whole.take(header.len() as int) =~= header);
    assert(whole.skip(header.len() as int) =~= data + crlf());
    assert(ascii_text(header)[0] == '$');
}

/// `bulks` read from the front: the first bulk string, then the others.
pub proof fn lemma_bulks_front(xs: Seq<Seq<u8>>)
    requires
        xs.len() > 0,
    ensures
        bulks(xs) == bulk(xs[0]) + bulks(xs.drop_first()),
    decreases xs.len(),
{
    if xs.len() == 1 {
        assert(xs.drop_last() =~= Seq::<Seq<u8>>::empty());
        assert(xs.drop_first() =~= Seq::<Seq<u8>>::empty());
        assert(bulks(xs) =~= bulk(xs[0]) + bulks(xs.drop_first()));
    } else {
        lemma_bulks_front(xs.drop_last());
        assert(xs.drop_last().drop_first() =~= xs.drop_first().drop_last());
        assert(xs.drop_first().last() == xs.last());
        assert(xs.drop_last()[0] == xs[0]);
        assert(bulks(xs) =~= bulk(xs[0]) + bulks(xs.drop_first()));
    }
}

/// The elements of a command are read whole, one after the other.
proof fn lemma_elements_consumed(xs: Seq<Seq<u8>>, tail: Seq<u8>)
    requires
        xs.len() >= 1,
        xs.len() <= usize::MAX,
        forall|i: int| 0 <= i < xs.len() ==> #[trigger] xs[i].len() + 2 <= usize::MAX,
    ensures
        reply_consumes(ReplyPhase::AwaitElement { rest: (xs.len() - 1) as usize }, bulks(xs) + tail)
            == Some(bulks(xs).len()),
    decreases xs.len(),
{
    let rest = (xs.len() - 1) as usize;
    let x = xs[0];
    let len = x.len();
    let header = seq![36u8] + decimal(len) + crlf();
    let others = bulks(xs.drop_first());
    lemma_bulks_front(xs);
    assert(bulk(x) =~= header + x + crlf());
    let input = bulks(xs) + tail;
    let after_header = x + crlf() + others + tail;
    assert(input =~= header + after_header);
    lemma_numbered_line_shape(36u8, len, after_header);
    law_bulk_header_read_back(rest, len);
    assert(input.take(header.len() as int) =~= header);
    assert(input.skip(header.len() as int) =~= after_header);
    let body = ReplyPhase::AwaitBody { rest, length: (len + 2) as usize };
    assert(after_header.skip((len + 2) as int) =~= others + tail);
    if rest == 0 {
        assert(xs.drop_first() =~= Seq::<Seq<u8>>::empty());
        assert(others =~= Seq::<u8>::empty());
        assert(reply_consumes(ReplyPhase::Finished, others + tail) == Some(0nat));
        assert(reply_consumes(body, after_header) == Some((len + 2) as nat));
    } else {
        let ys = xs.drop_first();
        assert forall|i: int| 0 <= i < ys.len() implies #[trigger] ys[i].len() + 2 <= usize::MAX by {
            assert(ys[i] == xs[i + 1]);
        }
        lemma_elements_consumed(ys, tail);
        assert(reply_consumes(body, after_header) == Some(others.len() + (len + 2) as nat));
    }
    assert(reply_consumes(ReplyPhase::AwaitElement { rest }, input) == Some(bulks(xs).len()));
}

/// Law: read as an array reply, the bytes of a command are consumed exactly,
/// whatever follows them; the reader finishes at the command's last byte.
pub proof fn law_reader_consumes_command(args: Seq<Seq<u8>>, tail: Seq<u8>)
    requires
        args.len() <= usize::MAX,
        forall|i: int| 0 <= i < args.len() ==> #[trigger] args[i].len() + 2 <= usize::MAX,
    ensures
        reply_consumes(ReplyPhase::AwaitHeader, command(args) + tail) == Some(command(args).len()),
{
    let n = args.len();
    let header = array_header(n);
    let input = command(args) + tail;
    let after_header = bulks(args) + tail;
    assert(input =~= header + after_header);
    lemma_numbered_line_shape(42u8, n, after_header);
    law_array_header_read_back(n);
    assert(input.take(header.len() as int) =~= header);
    assert(input.skip(header.len() as int) =~= after_header);
    if n == 0 {
        assert(bulks(args) =~= Seq::<u8>::empty());
        assert(reply_consumes(ReplyPhase::Finished, after_header) == Some(0nat));
    } else {
        lemma_elements_consumed(args, tail);
    }
}

/// Numbers below 100 have two digits once padded.
pub proof fn lemma_two_digits_len(i: nat)
    requires
        i < 100,
    ensures
        two_digits(i).len() == 2,
{
    if i >= 10 {
        assert(decimal(i / 10).len() == 1);
    }
}

/// A three-argument command, spelled out.
proof fn lemma_command3(a: Seq<u8>, b: Seq<u8>, c: Seq<u8>)
    ensures
        command(seq![a, b, c]) == array_header(3) + bulk(a) + bulk(b) + bulk(c),
{
    let e = Seq::<Seq<u8>>::empty();
    lemma_bulks_push(e, a);
    lemma_bulks_push(e.push(a), b);
    lemma_bulks_push(e.push(a).push(b), c);
    assert(e.push(a).push(b).push(c) =~= seq![a, b, c]);
    assert(command(seq![a, b, c]) =~= array_header(3) + bulk(a) + bulk(b) + bulk(c));
}

/// A two-argument command, spelled out.
proof fn lemma_command2(a: Seq<u8>, b: Seq<u8>)
    ensures
        command(seq![a, b]) == array_header(2) + bulk(a) + bulk(b),
{
    let e = Seq::<Seq<u8>>::empty();
    lemma_bulks_push(e, a);
    lemma_bulks_push(e.push(a), b);
    assert(e.push(a).push(b) =~= seq![a, b]);
    assert(command(seq![a, b]) =~= array_header(2) + bulk(a) + bulk(b));
}

/// Law: for keys below 100, the TCP benchmark's SET and GET announce the key's
/// true length, so they are well-formed commands, and a reader consumes each
/// of them exactly. (From key 100 on, the key is framed as three bytes while
/// it has four or more.)
pub proof fn law_tcp_commands_well_formed(i: nat, payload_size: nat, tail: Seq<u8>)
    requires
        i < 100,
        payload_size + 2 <= usize::MAX,
    ensures
        tcp_set(i, payload_size) == command(seq![set_word(), tcp_key(i), repeated(120u8, payload_size)]),
        tcp_get(i) == command(seq![get_word(), tcp_key(i)]),
        reply_consumes(ReplyPhase::AwaitHeader, tcp_set(i, payload_size) + tail) == Some(
            tcp_set(i, payload_size).len(),
        ),
        reply_consumes(ReplyPhase::AwaitHeader, tcp_get(i) + tail) == Some(tcp_get(i).len()),
{
    lemma_two_digits_len(i);
    assert(tcp_key(i).len() == 3);
    assert(bulk_framed(3, tcp_key(i)) == bulk(tcp_key(i)));
    assert(repeated(120u8, payload_size).len() == payload_size);
    lemma_command3(set_word(), tcp_key(i), repeated(120u8, payload_size));
    lemma_command2(get_word(), tcp_key(i));
    let set_args = seq![set_word(), tcp_key(i), repeated(120u8, payload_size)];
    let get_args = seq![get_word(), tcp_key(i)];
    assert forall|k: int| 0 <= k < set_args.len() implies #[trigger] set_args[k].len() + 2 <= usize::MAX by {}
    assert forall|k: int| 0 <= k < get_args.len() implies #[trigger] get_args[k].len() + 2 <= usize::MAX by {}
    law_reader_consumes_command(set_args, tail);
    law_reader_consumes_command(get_args, tail);
}

/// Law: for keys below 100, the encrypted-payload benchmark's SET and GET
/// announce the key's true length, so they are well-formed commands, and a
/// reader consumes each of them exactly. (From key 100 on, the key is framed
/// as seven bytes while it has eight or more.)
pub proof fn law_crypt_commands_well_formed(i: nat, payload: Seq<u8>, tail: Seq<u8>)
    requires
        i < 100,
        payload.len() + 2 <= usize::MAX,
    ensures
        crypt_set(i, payload) == command(seq![set_word(), crypt_key(i), payload]),
        crypt_get(i) == command(seq![get_word(), crypt_key(i)]),
        reply_consumes(ReplyPhase::AwaitHeader, crypt_set(i, payload) + tail) == Some(crypt_set(i, payload).len()),
        reply_consumes(ReplyPhase::AwaitHeader, crypt_get(i) + tail) == Some(crypt_get(i).len()),
{
    lemma_two_digits_len(i);
    assert(crypt_key(i).len() == 7);
    assert(bulk_framed(7, crypt_key(i)) == bulk(crypt_key(i)));
    lemma_command3(set_word(), crypt_key(i), payload);
    lemma_command2(get_word(), crypt_key(i));
    let set_args = seq![set_word(), crypt_key(i), payload];
    let get_args = seq![get_word(), crypt_key(i)];
    assert forall|k: int| 0 <= k < set_args.len() implies #[trigger] set_args[k].len() + 2 <= usize::MAX by {}
    assert forall|k: int| 0 <= k < get_args.len() implies #[trigger] get_args[k].len() + 2 <= usize::MAX by {}
    law_reader_consumes_command(set_args, tail);
    law_reader_consumes_command(get_args, tail);
}

/// How many bytes of `input` a server takes when it reads `count` array
/// replies (or commands) back to back with the reader; `None` when one of
/// them cannot be read.
pub open spec fn pipeline_consumes(count: nat, input: Seq<u8>) -> Option<nat>
    decreases count,
{
    if count == 0 {
        Some(0)
    } else {
        match reply_consumes(ReplyPhase::AwaitHeader, input) {
            None => None,
            Some(c) => match pipeline_consumes((count - 1) as nat, input.skip(c as int)) {
                None => None,
                Some(d) => Some(c + d),
            },
        }
    }
}

/// A line is the same whatever follows the bytes it was taken from.
proof fn lemma_line_len_prefix(input: Seq<u8>, m: nat, t: Seq<u8>)
    requires
        line_len(input) is Some,
        line_len(input).unwrap() <= m <= input.len(),
    ensures
        line_len(input.take(m as int) + t) == line_len(input),
    decreases input.len(),
{
    let s = input.take(m as int) + t;
    if input[0] != 10 {
        lemma_line_len_bounds_here(input.drop_first());
        assert(s.drop_first() =~= input.drop_first().take(m - 1) + t);
        lemma_line_len_prefix(input.drop_first(), (m - 1) as nat, t);
    }
}

proof fn lemma_line_len_bounds_here(input: Seq<u8>)
    ensures
        line_len(input) matches Some(k) ==> 1 <= k <= input.len(),
{
    crate::reply::lemma_line_len_bounds(input);
}

/// The reader looks at nothing beyond what it consumes: cut the input after
/// the consumed bytes, put anything behind them, and it consumes the same.
pub proof fn lemma_reader_prefix(phase: ReplyPhase, input: Seq<u8>, t: Seq<u8>)
    requires
        reply_consumes(phase, input) is Some,
    ensures
        reply_consumes(phase, input).unwrap() <= input.len(),
        reply_consumes(phase, input.take(reply_consumes(phase, input).unwrap() as int) + t)
            == reply_consumes(phase, input),
    decreases input.len(), crate::reply::phase_rank(phase),
{
    let c = reply_consumes(phase, input).unwrap();
    let s = input.take(c as int) + t;
    match phase {
        ReplyPhase::Finished => {},
        ReplyPhase::AwaitBody { rest, length } => {
            let next = after_element(rest as nat).0;
            let inner = input.skip(length as int);
            lemma_reader_prefix(next, inner, t);
            let c2 = reply_consumes(next, inner).unwrap();
            assert(c == c2 + length);
            assert(s.skip(length as int) =~= inner.take(c2 as int) + t);
        },
        _ => {
            let k = line_len(input).unwrap();
            lemma_line_len_bounds_here(input);
            let line = input.take(k as int);
            let (next, _) = line_step(phase, decode_utf8(line)).unwrap();
            let inner = input.skip(k as int);
            lemma_reader_prefix(next, inner, t);
            let c2 = reply_consumes(next, inner).unwrap();
            assert(c == c2 + k);
            lemma_line_len_prefix(input, c, t);
            assert(s.take(k as int) =~= line);
            assert(s.skip(k as int) =~= inner.take(c2 as int) + t);
        },
    }
}

/// Reading `a` replies and then one more is reading `a + 1` replies.
proof fn lemma_pipeline_one_more(a: nat, x: Seq<u8>, y: Seq<u8>, tail: Seq<u8>)
    requires
        forall|t: Seq<u8>| #[trigger] pipeline_consumes(a, x + t) == Some(x.len()),
        reply_consumes(ReplyPhase::AwaitHeader, y + tail) == Some(y.len()),
    ensures
        pipeline_consumes(a + 1, x + y + tail) == Some(x.len() + y.len()),
    decreases a,
{
    let input = x + y + tail;
    assert(pipeline_consumes(a, x + (y + tail)) == Some(x.len()));
    assert(x + (y + tail) =~= input);
    if a == 0 {
        assert(x.len() == 0);
        assert(input =~= y + tail);
        assert((y + tail).skip(y.len() as int) =~= tail);
        assert(pipeline_consumes(0, tail) == Some(0nat));
    } else {
        let c = reply_consumes(ReplyPhase::AwaitHeader, input).unwrap();
        assert(c <= x.len());
        let x2 = x.skip(c as int);
        lemma_reader_prefix(ReplyPhase::AwaitHeader, input, Seq::empty());
        assert forall|t: Seq<u8>| #[trigger] pipeline_consumes((a - 1) as nat, x2 + t) == Some(x2.len()) by {
            lemma_reader_prefix(ReplyPhase::AwaitHeader, input, x2 + t);
            assert(input.take(c as int) + (x2 + t) =~= x + t);
            assert(pipeline_consumes(a, x + t) == Some(x.len()));
            assert((x + t).skip(c as int) =~= x2 + t);
        }
        assert(input.skip(c as int) =~= x2 + y + tail);
        lemma_pipeline_one_more((a - 1) as nat, x2, y, tail);
    }
}

/// Commands written one after the other are read back one after the other,
/// each exactly.
pub proof fn lemma_concat_pipeline(count: nat, f: spec_fn(nat) -> Seq<u8>, tail: Seq<u8>)
    requires
        forall|i: nat, t: Seq<u8>|
            i < count ==> #[trigger] reply_consumes(ReplyPhase::AwaitHeader, f(i) + t) == Some(f(i).len()),
    ensures
        pipeline_consumes(count, concat_each(count, f) + tail) == Some(concat_each(count, f).len()),
    decreases count,
{
    if count == 0 {
        assert(pipeline_consumes(0, concat_each(0, f) + tail) == Some(0nat));
    } else {
        let m = (count - 1) as nat;
        assert forall|t: Seq<u8>| #[trigger] pipeline_consumes(m, concat_each(m, f) + t) == Some(
            concat_each(m, f).len(),
        ) by {
            lemma_concat_pipeline(m, f, t);
        }
        assert(reply_consumes(ReplyPhase::AwaitHeader, f(m) + tail) == Some(f(m).len()));
        lemma_pipeline_one_more(m, concat_each(m, f), f(m), tail);
    }
}

/// Law: a pipelined write of the TCP benchmark with at most 100 keys is read
/// back as `batch_size` commands, each exactly, ending at its last byte.
pub proof fn law_tcp_write_batch_read_back(batch_size: nat, payload_size: nat, tail: Seq<u8>)
    requires
        batch_size <= 100,
        payload_size + 2 <= usize::MAX,
    ensures
        pipeline_consumes(batch_size, concat_each(batch_size, |i: nat| tcp_set(i, payload_size)) + tail)
            == Some(concat_each(batch_size, |i: nat| tcp_set(i, payload_size)).len()),
{
    let f = |i: nat| tcp_set(i, payload_size);
    assert forall|i: nat, t: Seq<u8>| i < batch_size implies #[trigger] reply_consumes(
        ReplyPhase::AwaitHeader,
        f(i) + t,
    ) == Some(f(i).len()) by {
        law_tcp_commands_well_formed(i, payload_size, t);
    }
    lemma_concat_pipeline(batch_size, f, tail);
}

/// Law: a pipelined read of the TCP benchmark with at most 100 keys is read
/// back as `batch_size` commands, each exactly.
pub proof fn law_tcp_read_batch_read_back(batch_size: nat, tail: Seq<u8>)
    requires
        batch_size <= 100,
    ensures
        pipeline_consumes(batch_size, concat_each(batch_size, |i: nat| tcp_get(i)) + tail)
            == Some(concat_each(batch_size, |i: nat| tcp_get(i)).len()),
{
    let f = |i: nat| tcp_get(i);
    assert forall|i: nat, t: Seq<u8>| i < batch_size implies #[trigger] reply_consumes(
        ReplyPhase::AwaitHeader,
        f(i) + t,
    ) == Some(f(i).len()) by {
        law_tcp_commands_well_formed(i, 0, t);
    }
    lemma_concat_pipeline(batch_size, f, tail);
}

/// Law: a pipelined write of the encrypted-payload benchmark with at most 100
/// keys is read back as `batch_size` commands, each exactly.
pub proof fn law_crypt_write_batch_read_back(batch_size: nat, payload: Seq<u8>, tail: Seq<u8>)
    requires
        batch_size <= 100,
        payload.len() + 2 <= usize::MAX,
    ensures
        pipeline_consumes(batch_size, concat_each(batch_size, |i: nat| crypt_set(i, payload)) + tail)
            == Some(concat_each(batch_size, |i: nat| crypt_set(i, payload)).len()),
{
    let f = |i: nat| crypt_set(i, payload);
    assert forall|i: nat, t: Seq<u8>| i < batch_size implies #[trigger] reply_consumes(
        ReplyPhase::AwaitHeader,
        f(i) + t,
    ) == Some(f(i).len()) by {
        law_crypt_commands_well_formed(i, payload, t);
    }
    lemma_concat_pipeline(batch_size, f, tail);
}

/// Law: a pipelined read of the encrypted-payload benchmark with at most 100
/// keys is read back as `batch_size` commands, each exactly.
pub proof fn law_crypt_read_batch_read_back(batch_size: nat, tail: Seq<u8>)
    requires
        batch_size <= 100,
    ensures
        pipeline_consumes(batch_size, concat_each(batch_size, |i: nat| crypt_get(i)) + tail)
            == Some(concat_each(batch_size, |i: nat| crypt_get(i)).len()),
{
    let f = |i: nat| crypt_get(i);
    assert forall|i: nat, t: Seq<u8>| i < batch_size implies #[trigger] reply_consumes(
        ReplyPhase::AwaitHeader,
        f(i) + t,
    ) == Some(f(i).len()) by {
        law_crypt_commands_well_formed(i, Seq::empty(), t);
    }
    lemma_concat_pipeline(batch_size, f, tail);
}

} // verus!
