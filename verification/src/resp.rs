//! RESP (REdis Serialization Protocol) framing: decimal numbers, bulk strings,
//! array headers and whole commands.

use vstd::prelude::*;

verus! {

/// The two bytes `\r\n` that end every RESP line.
pub open spec fn crlf() -> Seq<u8> {
    seq![13u8, 10u8]
}

/// ASCII decimal digits of `n`, most significant first, without leading zeros.
pub open spec fn decimal(n: nat) -> Seq<u8>
    decreases n,
{
    if n < 10 {
        seq![(48 + n) as u8]
    } else {
        decimal(n / 10).push((48 + n % 10) as u8)
    }
}

/// A bulk string whose header announces `declared` bytes: `$<declared>\r\n<data>\r\n`.
pub open spec fn bulk_framed(declared: nat, data: Seq<u8>) -> Seq<u8> {
    seq![36u8] + decimal(declared) + crlf() + data + crlf()
}

/// A well-formed bulk string: the header announces the real length of `data`.
pub open spec fn bulk(data: Seq<u8>) -> Seq<u8> {
    bulk_framed(data.len(), data)
}

/// The header of an array of `n` elements: `*<n>\r\n`.
pub open spec fn array_header(n: nat) -> Seq<u8> {
    seq![42u8] + decimal(n) + crlf()
}

/// The bulk strings of `args`, one after the other.
pub open spec fn bulks(args: Seq<Seq<u8>>) -> Seq<u8>
    decreases args.len(),
{
    if args.len() == 0 {
        Seq::empty()
    } else {
        bulks(args.drop_last()) + bulk(args.last())
    }
}

/// One more argument adds its bulk string at the end.
pub proof fn lemma_bulks_push(xs: Seq<Seq<u8>>, x: Seq<u8>)
    ensures
        bulks(xs.push(x)) == bulks(xs) + bulk(x),
{
    assert(xs.push(x).drop_last() =~= xs);
}

/// A command: an array of bulk strings.
pub open spec fn command(args: Seq<Seq<u8>>) -> Seq<u8> {
    array_header(args.len()) + bulks(args)
}

/// Appends the decimal digits of `n`.
pub fn push_decimal(out: &mut Vec<u8>, n: usize)
    ensures
        final(out)@ == old(out)@ + decimal(n as nat),
    decreases n,
{
    if n >= 10 {
        push_decimal(out, n / 10);
    }
    out.push((48 + n % 10) as u8);
}

/// Appends `\r\n`.
pub fn push_crlf(out: &mut Vec<u8>)
    ensures
        final(out)@ == old(out)@ + crlf(),
{
    out.push(13u8);
    out.push(10u8);
}

/// Appends a bulk string announcing `declared` bytes around `data`.
pub fn push_bulk_framed(out: &mut Vec<u8>, declared: usize, data: &[u8])
    ensures
        final(out)@ == old(out)@ + bulk_framed(declared as nat, data@),
{
    out.push(36u8);
    push_decimal(out, declared);
    push_crlf(out);
    out.extend_from_slice(data);
    push_crlf(out);
    assert(final(out)@ =~= old(out)@ + bulk_framed(declared as nat, data@));
}

/// Appends a well-formed bulk string holding `data`.
pub fn push_bulk(out: &mut Vec<u8>, data: &[u8])
    ensures
        final(out)@ == old(out)@ + bulk(data@),
{
    push_bulk_framed(out, data.len(), data);
}

/// Appends the header of an array of `n` elements.
pub fn push_array_header(out: &mut Vec<u8>, n: usize)
    ensures
        final(out)@ == old(out)@ + array_header(n as nat),
{
    out.push(42u8);
    push_decimal(out, n);
    push_crlf(out);
    assert(final(out)@ =~= old(out)@ + array_header(n as nat));
}

/// Encodes a command: the array header followed by one bulk string per argument.
pub fn encode_command(args: &Vec<Vec<u8>>) -> (encoded: Vec<u8>)
    ensures
        encoded@ == command(args.deep_view()),
{
    let mut out: Vec<u8> = Vec::new();
    push_array_header(&mut out, args.len());
    let ghost header = out@;
    let mut i: usize = 0;
    while i < args.len()
        invariant
            0 <= i <= args.len(),
            header == array_header(args.len() as nat),
            out@ == header + bulks(args.deep_view().take(i as int)),
        decreases args.len() - i,
    {
        push_bulk(&mut out, args[i].as_slice());
        proof {
            let dv = args.deep_view();
            assert(dv.take(i + 1).drop_last() =~= dv.take(i as int));
            assert(dv.take(i + 1).last() == args[i as int]@);
        }
        i = i + 1;
    }
    proof {
        assert(args.deep_view().take(args.len() as int) =~= args.deep_view());
    }
    out
}

} // verus!
