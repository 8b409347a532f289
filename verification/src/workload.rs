//! The exact bytes the benchmarks send: SET/GET batches for the TCP and
//! encrypted-payload benchmarks, the file-transfer commands, and the
//! arithmetic that sizes a run.

use vstd::prelude::*;
use crate::resp::{
    array_header, bulk, bulk_framed, command, decimal, lemma_bulks_push, push_array_header,
    push_bulk, push_bulk_framed, push_decimal,
};
use crate::roundtrip::{ascii_text, lemma_decimal_digits, lemma_digits_value_decimal, lemma_two_digits_len};
use crate::text::digits_value;

verus! {

/// `SET`
pub open spec fn set_word() -> Seq<u8> {
    seq![83u8, 69u8, 84u8]
}

/// `GET`
pub open spec fn get_word() -> Seq<u8> {
    seq![71u8, 69u8, 84u8]
}

/// `n` copies of the byte `b`.
pub open spec fn repeated(b: u8, n: nat) -> Seq<u8> {
    Seq::new(n, |i: int| b)
}

/// `i` in decimal with at least two digits, as `format!("{:02}", i)` writes it.
pub open spec fn two_digits(i: nat) -> Seq<u8> {
    if i < 10 {
        seq![48u8] + decimal(i)
    } else {
        decimal(i)
    }
}

/// The commands `f(0)`, ..., `f(count - 1)`, one after the other.
pub open spec fn concat_each(count: nat, f: spec_fn(nat) -> Seq<u8>) -> Seq<u8>
    decreases count,
{
    if count == 0 {
        Seq::empty()
    } else {
        concat_each((count - 1) as nat, f) + f((count - 1) as nat)
    }
}

/// Key `i` of the TCP benchmark: `k` and two digits.
pub open spec fn tcp_key(i: nat) -> Seq<u8> {
    seq![107u8] + two_digits(i)
}

/// The TCP benchmark's SET of key `i` to `payload_size` bytes `x`. The key is
/// framed as three bytes long, whatever its length.
pub open spec fn tcp_set(i: nat, payload_size: nat) -> Seq<u8> {
    array_header(3) + bulk(set_word()) + bulk_framed(3, tcp_key(i)) + bulk(repeated(120u8, payload_size))
}

/// The TCP benchmark's GET of key `i`, the key framed as three bytes long.
pub open spec fn tcp_get(i: nat) -> Seq<u8> {
    array_header(2) + bulk(get_word()) + bulk_framed(3, tcp_key(i))
}

/// Key `i` of the encrypted-payload benchmark: `crypt` and two digits.
pub open spec fn crypt_key(i: nat) -> Seq<u8> {
    seq![99u8, 114u8, 121u8, 112u8, 116u8] + two_digits(i)
}

/// The encrypted-payload benchmark's SET of key `i` to `payload`; the key is
/// framed as seven bytes long, whatever its length.
pub open spec fn crypt_set(i: nat, payload: Seq<u8>) -> Seq<u8> {
    array_header(3) + bulk(set_word()) + bulk_framed(7, crypt_key(i)) + bulk(payload)
}

/// The encrypted-payload benchmark's GET of key `i`, the key framed as seven bytes long.
pub open spec fn crypt_get(i: nat) -> Seq<u8> {
    array_header(2) + bulk(get_word()) + bulk_framed(7, crypt_key(i))
}

/// The key of the file-transfer benchmark: `file00`.
pub open spec fn file_key() -> Seq<u8> {
    seq![102u8, 105u8, 108u8, 101u8, 48u8, 48u8]
}

/// Law: the words and fillers on the wire: `SET`, `GET`, the file key
/// `file00`, and payloads made of `x` only.
pub proof fn law_wire_words(n: nat)
    ensures
        ascii_text(set_word()) == "SET"@,
        ascii_text(get_word()) == "GET"@,
        ascii_text(file_key()) == "file00"@,
        ascii_text(repeated(120u8, n)) == Seq::new(n, |i: int| 'x'),
{
    reveal_strlit("SET");
    reveal_strlit("GET");
    reveal_strlit("file00");
    assert(ascii_text(set_word()) =~= "SET"@);
    assert(ascii_text(get_word()) =~= "GET"@);
    assert(ascii_text(file_key()) =~= "file00"@);
    assert(ascii_text(repeated(120u8, n)) =~= Seq::new(n, |i: int| 'x'));
}

/// The padded digits of `i` are decimal digits with the value `i`.
proof fn lemma_two_digits_value(i: nat)
    ensures
        two_digits(i).len() >= 2,
        forall|j: int| 0 <= j < two_digits(i).len() ==> 48 <= #[trigger] two_digits(i)[j] <= 57,
        digits_value(ascii_text(two_digits(i))) == i,
{
    lemma_decimal_digits(i);
    lemma_digits_value_decimal(i);
    let t = ascii_text(two_digits(i));
    if i < 10 {
        let d = (48 + i) as u8;
        assert(decimal(i) =~= seq![d]);
        assert(two_digits(i) =~= seq![48u8, d]);
        let z = t.drop_last();
        assert(z =~= seq!['0']);
        assert(z.drop_last() =~= Seq::<char>::empty());
        assert(digits_value(z.drop_last()) == 0);
        assert(('0' as u32) == 48);
        assert(digits_value(z) == digits_value(z.drop_last()) * 10 + ((z.last() as u32) - 48) as nat);
        assert(digits_value(z) == 0);
        assert(t.last() == d as char);
        assert((d as char) as u32 == d as u32);
        assert(digits_value(t) == digits_value(z) * 10 + ((t.last() as u32) - 48) as nat);
    } else {
        lemma_decimal_digits(i / 10);
        assert(decimal(i).len() == decimal(i / 10).len() + 1);
    }
}

/// Law: the key of number `i` in the TCP benchmark is `k` followed by decimal
/// digits whose value is `i`; below 100 they are exactly two.
pub proof fn law_tcp_key_reads_back(i: nat)
    ensures
        tcp_key(i).len() >= 3,
        i < 100 ==> tcp_key(i).len() == 3,
        tcp_key(i)[0] == 107u8,
        forall|j: int| 1 <= j < tcp_key(i).len() ==> 48 <= #[trigger] tcp_key(i)[j] <= 57,
        digits_value(ascii_text(tcp_key(i).drop_first())) == i,
{
    lemma_two_digits_value(i);
    if i < 100 {
        lemma_two_digits_len(i);
    }
    let k = tcp_key(i);
    assert(k.drop_first() =~= two_digits(i));
    assert forall|j: int| 1 <= j < k.len() implies 48 <= #[trigger] k[j] <= 57 by {
        assert(k[j] == two_digits(i)[j - 1]);
    }
}

/// Law: the key of number `i` in the encrypted-payload benchmark is `crypt`
/// followed by decimal digits whose value is `i`; below 100 they are exactly two.
pub proof fn law_crypt_key_reads_back(i: nat)
    ensures
        crypt_key(i).len() >= 7,
        i < 100 ==> crypt_key(i).len() == 7,
        crypt_key(i).take(5) == seq![99u8, 114u8, 121u8, 112u8, 116u8],
        forall|j: int| 5 <= j < crypt_key(i).len() ==> 48 <= #[trigger] crypt_key(i)[j] <= 57,
        digits_value(ascii_text(crypt_key(i).skip(5))) == i,
{
    lemma_two_digits_value(i);
    if i < 100 {
        lemma_two_digits_len(i);
    }
    let k = crypt_key(i);
    assert(k.skip(5) =~= two_digits(i));
    assert(k.take(5) =~= seq![99u8, 114u8, 121u8, 112u8, 116u8]);
    assert forall|j: int| 5 <= j < k.len() implies 48 <= #[trigger] k[j] <= 57 by {
        assert(k[j] == two_digits(i)[j - 5]);
    }
}

/// Law: keys of different numbers are different, in both benchmarks; so a
/// batch of `n` keys touches `n` distinct keys.
pub proof fn law_two_digit_keys_distinct(i: nat, j: nat)
    ensures
        tcp_key(i) == tcp_key(j) ==> i == j,
        crypt_key(i) == crypt_key(j) ==> i == j,
{
    law_tcp_key_reads_back(i);
    law_tcp_key_reads_back(j);
    law_crypt_key_reads_back(i);
    law_crypt_key_reads_back(j);
}

fn push_two_digits(out: &mut Vec<u8>, i: usize)
    ensures
        final(out)@ == old(out)@ + two_digits(i as nat),
{
    if i < 10 {
        out.push(48u8);
        push_decimal(out, i);
        assert(final(out)@ =~= old(out)@ + two_digits(i as nat));
    } else {
        push_decimal(out, i);
    }
}

fn tcp_key_bytes(i: usize) -> (key: Vec<u8>)
    ensures
        key@ == tcp_key(i as nat),
{
    let mut key: Vec<u8> = Vec::new();
    key.push(107u8);
    push_two_digits(&mut key, i);
    assert(key@ =~= tcp_key(i as nat));
    key
}

fn crypt_key_bytes(i: usize) -> (key: Vec<u8>)
    ensures
        key@ == crypt_key(i as nat),
{
    let mut key: Vec<u8> = Vec::new();
    key.extend_from_slice(&[99u8, 114u8, 121u8, 112u8, 116u8]);
    push_two_digits(&mut key, i);
    assert(key@ =~= crypt_key(i as nat));
    key
}

/// The TCP benchmark's SET of key `i`.
pub fn tcp_set_command(i: usize, payload_size: usize) -> (cmd: Vec<u8>)
    ensures
        cmd@ == tcp_set(i as nat, payload_size as nat),
{
    let mut out: Vec<u8> = Vec::new();
    push_array_header(&mut out, 3);
    push_bulk(&mut out, &[83u8, 69u8, 84u8]);
    let key = tcp_key_bytes(i);
    push_bulk_framed(&mut out, 3, key.as_slice());
    let value: Vec<u8> = vec![120u8; payload_size];
    assert(value@ =~= repeated(120u8, payload_size as nat));
    push_bulk(&mut out, value.as_slice());
    assert(out@ =~= tcp_set(i as nat, payload_size as nat));
    out
}

/// The TCP benchmark's GET of key `i`.
pub fn tcp_get_command(i: usize) -> (cmd: Vec<u8>)
    ensures
        cmd@ == tcp_get(i as nat),
{
    let mut out: Vec<u8> = Vec::new();
    push_array_header(&mut out, 2);
    push_bulk(&mut out, &[71u8, 69u8, 84u8]);
    let key = tcp_key_bytes(i);
    push_bulk_framed(&mut out, 3, key.as_slice());
    assert(out@ =~= tcp_get(i as nat));
    out
}

/// The encrypted-payload benchmark's SET of key `i` to `payload`.
pub fn crypt_set_command(i: usize, payload: &[u8]) -> (cmd: Vec<u8>)
    ensures
        cmd@ == crypt_set(i as nat, payload@),
{
    let mut out: Vec<u8> = Vec::new();
    push_array_header(&mut out, 3);
    push_bulk(&mut out, &[83u8, 69u8, 84u8]);
    let key = crypt_key_bytes(i);
    push_bulk_framed(&mut out, 7, key.as_slice());
    push_bulk(&mut out, payload);
    assert(out@ =~= crypt_set(i as nat, payload@));
    out
}

/// The encrypted-payload benchmark's GET of key `i`.
pub fn crypt_get_command(i: usize) -> (cmd: Vec<u8>)
    ensures
        cmd@ == crypt_get(i as nat),
{
    let mut out: Vec<u8> = Vec::new();
    push_array_header(&mut out, 2);
    push_bulk(&mut out, &[71u8, 69u8, 84u8]);
    let key = crypt_key_bytes(i);
    push_bulk_framed(&mut out, 7, key.as_slice());
    assert(out@ =~= crypt_get(i as nat));
    out
}

/// The pipelined write of the TCP benchmark: the SETs of keys `0..batch_size`,
/// each to `payload_size` bytes `x`.
pub fn tcp_write_batch(batch_size: usize, payload_size: usize) -> (batch: Vec<u8>)
    ensures
        batch@ == concat_each(batch_size as nat, |i: nat| tcp_set(i, payload_size as nat)),
{
    let ghost f = |i: nat| tcp_set(i, payload_size as nat);
    let mut out: Vec<u8> = Vec::new();
    let mut i: usize = 0;
    while i < batch_size
        invariant
            i <= batch_size,
            f == (|i: nat| tcp_set(i, payload_size as nat)),
            out@ == concat_each(i as nat, f),
        decreases batch_size - i,
    {
        let cmd = tcp_set_command(i, payload_size);
        out.extend_from_slice(cmd.as_slice());
        i = i + 1;
    }
    out
}

/// The pipelined read of the TCP benchmark: the GETs of keys `0..batch_size`.
pub fn tcp_read_batch(batch_size: usize) -> (batch: Vec<u8>)
    ensures
        batch@ == concat_each(batch_size as nat, |i: nat| tcp_get(i)),
{
    let ghost f = |i: nat| tcp_get(i);
    let mut out: Vec<u8> = Vec::new();
    let mut i: usize = 0;
    while i < batch_size
        invariant
            i <= batch_size,
            f == (|i: nat| tcp_get(i)),
            out@ == concat_each(i as nat, f),
        decreases batch_size - i,
    {
        let cmd = tcp_get_command(i);
        out.extend_from_slice(cmd.as_slice());
        i = i + 1;
    }
    out
}

/// The pipelined write of the encrypted-payload benchmark: the SETs of keys
/// `0..batch_size`, each to `payload`.
pub fn crypt_write_batch(batch_size: usize, payload: &[u8]) -> (batch: Vec<u8>)
    ensures
        batch@ == concat_each(batch_size as nat, |i: nat| crypt_set(i, payload@)),
{
    let ghost f = |i: nat| crypt_set(i, payload@);
    let mut out: Vec<u8> = Vec::new();
    let mut i: usize = 0;
    while i < batch_size
        invariant
            i <= batch_size,
            f == (|i: nat| crypt_set(i, payload@)),
            out@ == concat_each(i as nat, f),
        decreases batch_size - i,
    {
        let cmd = crypt_set_command(i, payload);
        out.extend_from_slice(cmd.as_slice());
        i = i + 1;
    }
    out
}

/// The pipelined read of the encrypted-payload benchmark: the GETs of keys
/// `0..batch_size`.
pub fn crypt_read_batch(batch_size: usize) -> (batch: Vec<u8>)
    ensures
        batch@ == concat_each(batch_size as nat, |i: nat| crypt_get(i)),
{
    let ghost f = |i: nat| crypt_get(i);
    let mut out: Vec<u8> = Vec::new();
    let mut i: usize = 0;
    while i < batch_size
        invariant
            i <= batch_size,
            f == (|i: nat| crypt_get(i)),
            out@ == concat_each(i as nat, f),
        decreases batch_size - i,
    {
        let cmd = crypt_get_command(i);
        out.extend_from_slice(cmd.as_slice());
        i = i + 1;
    }
    out
}

/// The file-transfer benchmark's SET of `file00` to `payload`.
pub fn file_write_command(payload: &[u8]) -> (cmd: Vec<u8>)
    ensures
        cmd@ == command(seq![set_word(), file_key(), payload@]),
{
    let mut out: Vec<u8> = Vec::new();
    push_array_header(&mut out, 3);
    push_bulk(&mut out, &[83u8, 69u8, 84u8]);
    push_bulk(&mut out, &[102u8, 105u8, 108u8, 101u8, 48u8, 48u8]);
    push_bulk(&mut out, payload);
    proof {
        let e = Seq::<Seq<u8>>::empty();
        lemma_bulks_push(e, set_word());
        lemma_bulks_push(e.push(set_word()), file_key());
        lemma_bulks_push(e.push(set_word()).push(file_key()), payload@);
        assert(e.push(set_word()).push(file_key()).push(payload@) =~= seq![set_word(), file_key(), payload@]);
        assert(out@ =~= command(seq![set_word(), file_key(), payload@]));
    }
    out
}

/// The file-transfer benchmark's GET of `file00`.
pub fn file_read_command() -> (cmd: Vec<u8>)
    ensures
        cmd@ == command(seq![get_word(), file_key()]),
{
    let mut out: Vec<u8> = Vec::new();
    push_array_header(&mut out, 2);
    push_bulk(&mut out, &[71u8, 69u8, 84u8]);
    push_bulk(&mut out, &[102u8, 105u8, 108u8, 101u8, 48u8, 48u8]);
    proof {
        let e = Seq::<Seq<u8>>::empty();
        lemma_bulks_push(e, get_word());
        lemma_bulks_push(e.push(get_word()), file_key());
        assert(e.push(get_word()).push(file_key()) =~= seq![get_word(), file_key()]);
        assert(out@ =~= command(seq![get_word(), file_key()]));
    }
    out
}

/// The payload of the file-transfer benchmark: `chunk_size_mb` mebibytes of `x`.
pub fn file_payload(chunk_size_mb: usize) -> (payload: Vec<u8>)
    requires
        chunk_size_mb * 1048576 <= usize::MAX,
    ensures
        payload@ == repeated(120u8, (chunk_size_mb * 1048576) as nat),
{
    let payload: Vec<u8> = vec![120u8; chunk_size_mb * 1024 * 1024];
    assert(payload@ =~= repeated(120u8, (chunk_size_mb * 1048576) as nat));
    payload
}

/// How large a pipelined run is.
#[derive(Clone, Copy, Debug, PartialEq, Eq, Structural)]
pub struct RunSize {
    /// The operations of all clients together.
    pub total_operations: usize,
    /// The pipelined batches each client sends.
    pub batches_per_client: usize,
}

/// Why a run cannot go ahead.
#[derive(Clone, Copy, Debug, PartialEq, Eq, Structural)]
pub enum RunError {
    /// Clients were asked to split their operations into batches of zero.
    ZeroBatch,
}

/// Sizes a run of `num_clients` clients doing `ops_per_client` operations in
/// batches of `batch_size`. The clients' batch count is `ops_per_client /
/// batch_size`, rounded down; a zero batch size fails once there is a client
/// to divide by it.
pub fn run_size(num_clients: usize, ops_per_client: usize, batch_size: usize) -> (size: Result<RunSize, RunError>)
    requires
        num_clients * ops_per_client <= usize::MAX,
    ensures
        size is Err <==> (batch_size == 0 && num_clients > 0),
        size is Err ==> size == Err::<RunSize, _>(RunError::ZeroBatch),
        size matches Ok(s) ==> s.total_operations == num_clients * ops_per_client,
        size matches Ok(s) ==> s.batches_per_client == (if batch_size == 0 { 0 } else { ops_per_client / batch_size }),
{
    let total_operations = num_clients * ops_per_client;
    if batch_size == 0 {
        if num_clients > 0 {
            return Err(RunError::ZeroBatch);
        }
        return Ok(RunSize { total_operations, batches_per_client: 0 });
    }
    Ok(RunSize { total_operations, batches_per_client: ops_per_client / batch_size })
}

/// The bytes a file-transfer run moves in each direction: every operation of
/// every client carries the whole payload.
pub fn transferred_bytes(num_clients: usize, ops_per_client: usize, payload_len: usize) -> (total: usize)
    requires
        num_clients * ops_per_client * payload_len <= usize::MAX,
    ensures
        total == num_clients * ops_per_client * payload_len,
{
    if payload_len == 0 {
        assert(num_clients * ops_per_client * payload_len == 0) by (nonlinear_arith)
            requires
                payload_len == 0,
        ;
        return 0;
    }
    assert(num_clients * ops_per_client <= num_clients * ops_per_client * payload_len) by (nonlinear_arith)
        requires
            payload_len >= 1,
    ;
    num_clients * ops_per_client * payload_len
}

/// The bytes read for a reply whose value is `payload_len` bytes: the value
/// and its closing `\r\n`; `None` when that does not fit in `usize`.
pub fn reply_body_length(payload_len: usize) -> (length: Option<usize>)
    ensures
        length == (if payload_len + 2 <= usize::MAX { Some((payload_len + 2) as usize) } else { None::<usize> }),
{
    payload_len.checked_add(2)
}

} // verus!
