//! The batched benchmark: each client sends MSET and MGET commands that cover
//! its keys `c<id>_k<n>` in batches.

use vstd::prelude::*;
use crate::resp::{array_header, bulks, command, decimal, lemma_bulks_push, push_array_header, push_bulk, push_decimal};
use crate::roundtrip::{ascii_text, lemma_decimal_digits, lemma_digits_value_decimal};
use crate::text::digits_value;

verus! {

/// `MSET`
pub open spec fn mset_word() -> Seq<u8> {
    seq![77u8, 83u8, 69u8, 84u8]
}

/// `MGET`
pub open spec fn mget_word() -> Seq<u8> {
    seq![77u8, 71u8, 69u8, 84u8]
}

/// The 64-byte value every key is set to.
pub open spec fn batched_value() -> Seq<u8> {
    seq![
        118u8, 97u8, 108u8, 54u8, 52u8, 95u8, 48u8, 49u8, 50u8, 51u8, 52u8, 53u8, 54u8, 55u8,
        56u8, 57u8, 97u8, 98u8, 99u8, 100u8, 101u8, 102u8, 48u8, 49u8, 50u8, 51u8, 52u8, 53u8,
        54u8, 55u8, 56u8, 57u8, 97u8, 98u8, 99u8, 100u8, 101u8, 102u8, 48u8, 49u8, 50u8, 51u8,
        52u8, 53u8, 54u8, 55u8, 56u8, 57u8, 97u8, 98u8, 99u8, 100u8, 101u8, 102u8, 48u8, 49u8,
        50u8, 51u8, 52u8, 53u8, 54u8, 55u8, 56u8, 57u8,
    ]
}

/// Key `n` of client `id`: `c<id>_k<n>`.
pub open spec fn batched_key(id: nat, n: nat) -> Seq<u8> {
    seq![99u8] + decimal(id) + seq![95u8, 107u8] + decimal(n)
}

/// Law: the batched commands are named `MSET` and `MGET`, and every key is set
/// to the same 64-byte value: `val64_`, then `0123456789abcdef` over and over
/// up to the 64th byte.
pub proof fn law_batched_words()
    ensures
        ascii_text(mset_word()) == "MSET"@,
        ascii_text(mget_word()) == "MGET"@,
        batched_value().len() == 64,
        ascii_text(batched_value().take(6)) == "val64_"@,
        forall|i: int| 6 <= i < 64 ==> #[trigger] ascii_text(batched_value())[i] == "0123456789abcdef"@[(i - 6) % 16],
{
    reveal_strlit("MSET");
    reveal_strlit("MGET");
    reveal_strlit("val64_");
    reveal_strlit("0123456789abcdef");
    assert(ascii_text(mset_word()) =~= "MSET"@);
    assert(ascii_text(mget_word()) =~= "MGET"@);
    assert(ascii_text(batched_value().take(6)) =~= "val64_"@);
    assert forall|i: int| 6 <= i < 64 implies #[trigger] ascii_text(batched_value())[i] == "0123456789abcdef"@[(i - 6)
        % 16] by {
    }
}

/// Law: key `n` of client `id` reads back as `(id, n)`. After the leading `c`
/// come decimal digits up to the first `_`, and they have the value `id`; the
/// `_` is followed by `k` and then by the digits of `n`.
pub proof fn law_batched_key_reads_back(id: nat, n: nat)
    ensures
        ({
            let key = batched_key(id, n);
            let p = decimal(id).len() as int + 1;
            &&& 2 <= p
            &&& p + 3 <= key.len()
            &&& key[0] == 99u8
            &&& forall|i: int| 1 <= i < p ==> 48 <= #[trigger] key[i] <= 57
            &&& key[p] == 95u8
            &&& key[p + 1] == 107u8
            &&& forall|i: int| p + 2 <= i < key.len() ==> 48 <= #[trigger] key[i] <= 57
            &&& digits_value(ascii_text(key.subrange(1, p))) == id
            &&& digits_value(ascii_text(key.subrange(p + 2, key.len() as int))) == n
        }),
{
    let key = batched_key(id, n);
    let d = decimal(id);
    let e = decimal(n);
    let p = d.len() as int + 1;
    lemma_decimal_digits(id);
    lemma_decimal_digits(n);
    lemma_digits_value_decimal(id);
    lemma_digits_value_decimal(n);
    assert(key.len() == p + 2 + e.len());
    assert(key.subrange(1, p) =~= d);
    assert(key.subrange(p + 2, key.len() as int) =~= e);
    assert forall|i: int| 1 <= i < p implies 48 <= #[trigger] key[i] <= 57 by {
        assert(key[i] == d[i - 1]);
    }
    assert forall|i: int| p + 2 <= i < key.len() implies 48 <= #[trigger] key[i] <= 57 by {
        assert(key[i] == e[i - p - 2]);
    }
}

/// Law: two keys are equal only when they belong to the same client and carry
/// the same number; so no client ever writes or reads another client's keys.
pub proof fn law_batched_keys_distinct(id1: nat, n1: nat, id2: nat, n2: nat)
    ensures
        batched_key(id1, n1) == batched_key(id2, n2) ==> id1 == id2 && n1 == n2,
{
    if batched_key(id1, n1) == batched_key(id2, n2) {
        law_batched_key_reads_back(id1, n1);
        law_batched_key_reads_back(id2, n2);
        let key = batched_key(id1, n1);
        let p1 = decimal(id1).len() as int + 1;
        let p2 = decimal(id2).len() as int + 1;
        if p1 < p2 {
            assert(48 <= key[p1] <= 57);
        } else if p2 < p1 {
            assert(48 <= key[p2] <= 57);
        }
        assert(p1 == p2);
    }
}

/// The keys `start .. start + count` of client `id`, each followed by the value.
pub open spec fn key_value_pairs(id: nat, start: nat, count: nat) -> Seq<Seq<u8>>
    decreases count,
{
    if count == 0 {
        Seq::empty()
    } else {
        key_value_pairs(id, start, (count - 1) as nat).push(batched_key(id, (start + count - 1) as nat)).push(
            batched_value(),
        )
    }
}

/// The keys `start .. start + count` of client `id`.
pub open spec fn key_run(id: nat, start: nat, count: nat) -> Seq<Seq<u8>>
    decreases count,
{
    if count == 0 {
        Seq::empty()
    } else {
        key_run(id, start, (count - 1) as nat).push(batched_key(id, (start + count - 1) as nat))
    }
}

/// The arguments of the MSET that sets keys `start .. start + count` of client `id`.
pub open spec fn mset_args(id: nat, start: nat, count: nat) -> Seq<Seq<u8>> {
    seq![mset_word()] + key_value_pairs(id, start, count)
}

/// The arguments of the MGET that reads keys `start .. start + count` of client `id`.
pub open spec fn mget_args(id: nat, start: nat, count: nat) -> Seq<Seq<u8>> {
    seq![mget_word()] + key_run(id, start, count)
}

/// The first keys of the batches, `0, b, 2b, ...` below `ops`, as
/// `(0..ops).step_by(b)` yields them from `i` on; none when `b` is zero.
pub open spec fn batch_starts(i: nat, ops: nat, b: nat) -> Seq<nat>
    decreases (if i >= ops { 0 } else { ops - i }) as nat,
{
    if b == 0 || i >= ops {
        Seq::empty()
    } else {
        seq![i] + batch_starts(i + b, ops, b)
    }
}

/// Why a client's commands cannot be built.
#[derive(Clone, Copy, Debug, PartialEq, Eq, Structural)]
pub enum BatchError {
    /// The batch size is zero: there is no way to step through the keys.
    ZeroBatch,
    /// A key number or an element count does not fit in `usize`.
    Overflow,
}

fn push_batched_key(out: &mut Vec<u8>, id: usize, n: usize)
    ensures
        final(out)@ == old(out)@ + batched_key(id as nat, n as nat),
{
    out.push(99u8);
    push_decimal(out, id);
    out.push(95u8);
    out.push(107u8);
    push_decimal(out, n);
    assert(final(out)@ =~= old(out)@ + batched_key(id as nat, n as nat));
}

/// The MSET that sets keys `start .. start + count` of client `id` to the value.
pub fn mset_command(id: usize, start: usize, count: usize) -> (cmd: Vec<u8>)
    requires
        2 * count + 1 <= usize::MAX,
        start + count <= usize::MAX + 1,
    ensures
        cmd@ == command(mset_args(id as nat, start as nat, count as nat)),
{
    let value: [u8; 64] = [
        118u8, 97u8, 108u8, 54u8, 52u8, 95u8, 48u8, 49u8, 50u8, 51u8, 52u8, 53u8, 54u8, 55u8,
        56u8, 57u8, 97u8, 98u8, 99u8, 100u8, 101u8, 102u8, 48u8, 49u8, 50u8, 51u8, 52u8, 53u8,
        54u8, 55u8, 56u8, 57u8, 97u8, 98u8, 99u8, 100u8, 101u8, 102u8, 48u8, 49u8, 50u8, 51u8,
        52u8, 53u8, 54u8, 55u8, 56u8, 57u8, 97u8, 98u8, 99u8, 100u8, 101u8, 102u8, 48u8, 49u8,
        50u8, 51u8, 52u8, 53u8, 54u8, 55u8, 56u8, 57u8,
    ];
    assert(value@ =~= batched_value());
    let mut out: Vec<u8> = Vec::new();
    push_array_header(&mut out, count * 2 + 1);
    push_bulk(&mut out, &[77u8, 83u8, 69u8, 84u8]);
    let ghost header = array_header((2 * count + 1) as nat);
    proof {
        lemma_bulks_push(Seq::empty(), mset_word());
        assert(mset_args(id as nat, start as nat, 0) =~= Seq::empty().push(mset_word()));
    }
    let mut j: usize = 0;
    while j < count
        invariant
            j <= count,
            start + count <= usize::MAX + 1,
            value@ == batched_value(),
            header == array_header((2 * count + 1) as nat),
            out@ == header + bulks(mset_args(id as nat, start as nat, j as nat)),
        decreases count - j,
    {
        let mut key: Vec<u8> = Vec::new();
        push_batched_key(&mut key, id, start + j);
        push_bulk(&mut out, key.as_slice());
        push_bulk(&mut out, &value);
        proof {
            let before = mset_args(id as nat, start as nat, j as nat);
            let k = batched_key(id as nat, (start + j) as nat);
            lemma_bulks_push(before, k);
            lemma_bulks_push(before.push(k), batched_value());
            assert(mset_args(id as nat, start as nat, (j + 1) as nat) =~= before.push(k).push(batched_value()));
        }
        j = j + 1;
    }
    proof {
        assert(mset_args(id as nat, start as nat, count as nat).len() == 2 * count + 1) by {
            lemma_pairs_len(id as nat, start as nat, count as nat);
        }
    }
    out
}

/// The MGET that reads keys `start .. start + count` of client `id`.
pub fn mget_command(id: usize, start: usize, count: usize) -> (cmd: Vec<u8>)
    requires
        count + 1 <= usize::MAX,
        start + count <= usize::MAX + 1,
    ensures
        cmd@ == command(mget_args(id as nat, start as nat, count as nat)),
{
    let mut out: Vec<u8> = Vec::new();
    push_array_header(&mut out, count + 1);
    push_bulk(&mut out, &[77u8, 71u8, 69u8, 84u8]);
    let ghost header = array_header((count + 1) as nat);
    proof {
        lemma_bulks_push(Seq::empty(), mget_word());
        assert(mget_args(id as nat, start as nat, 0) =~= Seq::empty().push(mget_word()));
    }
    let mut j: usize = 0;
    while j < count
        invariant
            j <= count,
            start + count <= usize::MAX + 1,
            header == array_header((count + 1) as nat),
            out@ == header + bulks(mget_args(id as nat, start as nat, j as nat)),
        decreases count - j,
    {
        let mut key: Vec<u8> = Vec::new();
        push_batched_key(&mut key, id, start + j);
        push_bulk(&mut out, key.as_slice());
        proof {
            let before = mget_args(id as nat, start as nat, j as nat);
            let k = batched_key(id as nat, (start + j) as nat);
            lemma_bulks_push(before, k);
            assert(mget_args(id as nat, start as nat, (j + 1) as nat) =~= before.push(k));
        }
        j = j + 1;
    }
    proof {
        lemma_run_len(id as nat, start as nat, count as nat);
    }
    out
}

/// Whether building a client's commands overflows: some batch has a key number
/// or an element count beyond `usize::MAX`.
pub open spec fn client_overflows(ops: nat, b: nat) -> bool {
    let starts = batch_starts(0, ops, b);
    starts.len() > 0 && (2 * b + 1 > usize::MAX || exists|k: int|
        0 <= k < starts.len() && #[trigger] starts[k] + b > usize::MAX + 1)
}

/// The MSET and MGET commands of client `id`: one pair per batch of
/// `batch_size` keys, for the keys `0 .. ops_per_client` in steps of `batch_size`.
pub fn client_commands(id: usize, ops_per_client: usize, batch_size: usize) -> (cmds: Result<
    (Vec<Vec<u8>>, Vec<Vec<u8>>),
    BatchError,
>)
    ensures
        batch_size == 0 ==> cmds == Err::<(Vec<Vec<u8>>, Vec<Vec<u8>>), _>(BatchError::ZeroBatch),
        batch_size > 0 ==> (cmds is Err <==> client_overflows(ops_per_client as nat, batch_size as nat)),
        batch_size > 0 && cmds is Err ==> cmds == Err::<(Vec<Vec<u8>>, Vec<Vec<u8>>), _>(BatchError::Overflow),
        cmds matches Ok((msets, mgets)) ==> {
            let starts = batch_starts(0, ops_per_client as nat, batch_size as nat);
            &&& msets.len() == starts.len()
            &&& mgets.len() == starts.len()
            &&& forall|k: int| 0 <= k < starts.len() ==> #[trigger] msets[k]@ == command(
                mset_args(id as nat, starts[k], batch_size as nat),
            )
            &&& forall|k: int| 0 <= k < starts.len() ==> #[trigger] mgets[k]@ == command(
                mget_args(id as nat, starts[k], batch_size as nat),
            )
        },
{
    if batch_size == 0 {
        return Err(BatchError::ZeroBatch);
    }
    let ghost ops = ops_per_client as nat;
    let ghost b = batch_size as nat;
    let ghost all = batch_starts(0, ops, b);
    let mut msets: Vec<Vec<u8>> = Vec::new();
    let mut mgets: Vec<Vec<u8>> = Vec::new();
    let mut i: usize = 0;
    assert(all.skip(0) =~= all);
    while i < ops_per_client
        invariant
            batch_size > 0,
            ops == ops_per_client,
            b == batch_size,
            all == batch_starts(0, ops, b),
            msets.len() == mgets.len(),
            msets.len() <= all.len(),
            all.skip(msets.len() as int) == batch_starts(i as nat, ops, b),
            msets.len() > 0 ==> 2 * b + 1 <= usize::MAX,
            forall|k: int| 0 <= k < msets.len() ==> #[trigger] all[k] + b <= usize::MAX + 1,
            forall|k: int| 0 <= k < msets.len() ==> #[trigger] msets[k]@ == command(
                mset_args(id as nat, all[k], b),
            ),
            forall|k: int| 0 <= k < msets.len() ==> #[trigger] mgets[k]@ == command(
                mget_args(id as nat, all[k], b),
            ),
        decreases ops_per_client - i,
    {
        let ghost done = msets.len() as int;
        assert(batch_starts(i as nat, ops, b) == seq![i as nat] + batch_starts((i + b) as nat, ops, b));
        assert(all.skip(done)[0] == all[done]);
        assert(all[done] == i);
        assert(all.len() > 0);
        if batch_size > (usize::MAX - 1) / 2 {
            return Err(BatchError::Overflow);
        }
        if i > usize::MAX - (batch_size - 1) {
            assert(all[done] + b > usize::MAX + 1);
            return Err(BatchError::Overflow);
        }
        let m = mset_command(id, i, batch_size);
        let g = mget_command(id, i, batch_size);
        msets.push(m);
        mgets.push(g);
        proof {
            assert(all.skip(done + 1) =~= all.skip(done).drop_first());
            assert(all.skip(done).drop_first() =~= batch_starts((i + b) as nat, ops, b));
        }
        if batch_size <= ops_per_client - i {
            i = i + batch_size;
        } else {
            assert(batch_starts((i + b) as nat, ops, b) =~= Seq::<nat>::empty());
            assert(batch_starts(ops, ops, b) =~= Seq::<nat>::empty());
            i = ops_per_client;
        }
    }
    assert(batch_starts(i as nat, ops, b) =~= Seq::<nat>::empty());
    assert(all.skip(msets.len() as int).len() == 0);
    assert(msets.len() == all.len());
    Ok((msets, mgets))
}

/// The batches from `i` on start at `i`, `i + b`, `i + 2b`, ...; the last
/// starts below `ops`, and one batch more would start at or beyond it.
proof fn lemma_batch_starts_from(i: nat, ops: nat, b: nat)
    requires
        b > 0,
    ensures
        forall|k: int| 0 <= k < batch_starts(i, ops, b).len() ==> #[trigger] batch_starts(i, ops, b)[k] == i + k * b,
        i + batch_starts(i, ops, b).len() * b >= ops,
        batch_starts(i, ops, b).len() > 0 ==> i + (batch_starts(i, ops, b).len() - 1) * b < ops,
    decreases (if i >= ops { 0 } else { ops - i }) as nat,
{
    if i < ops {
        lemma_batch_starts_from(i + b, ops, b);
        let s = batch_starts(i, ops, b);
        let t = batch_starts(i + b, ops, b);
        assert(s == seq![i] + t);
        assert forall|k: int| 0 <= k < s.len() implies #[trigger] s[k] == i + k * b by {
            if k > 0 {
                assert(s[k] == t[k - 1]);
                assert(t[k - 1] == i + b + (k - 1) * b);
                assert((k - 1) * b + b == k * b) by (nonlinear_arith);
            } else {
                assert(0 * b == 0) by (nonlinear_arith);
            }
        }
        assert((t.len() + 1) * b == t.len() * b + b) by (nonlinear_arith);
        if t.len() > 0 {
            assert((t.len() - 1) * b + b == t.len() * b) by (nonlinear_arith)
                requires
                    t.len() > 0,
            ;
        }
    }
}

/// Law: with a positive batch size, a client's batches start at `0, b, 2b,
/// ...`, the last of them below `ops`, and together, `b` keys each, they reach
/// every key below `ops`.
pub proof fn law_batches_cover_keys(ops: nat, b: nat)
    requires
        b > 0,
    ensures
        forall|k: int| 0 <= k < batch_starts(0, ops, b).len() ==> #[trigger] batch_starts(0, ops, b)[k] == k * b,
        batch_starts(0, ops, b).len() * b >= ops,
        batch_starts(0, ops, b).len() > 0 ==> (batch_starts(0, ops, b).len() - 1) * b < ops,
{
    lemma_batch_starts_from(0, ops, b);
}

/// The pairs of keys and values, element by element.
proof fn lemma_pairs_elements(id: nat, start: nat, count: nat)
    ensures
        key_value_pairs(id, start, count).len() == 2 * count,
        forall|t: int| 0 <= t < count ==> #[trigger] key_value_pairs(id, start, count)[2 * t] == batched_key(
            id,
            (start + t) as nat,
        ) && key_value_pairs(id, start, count)[2 * t + 1] == batched_value(),
    decreases count,
{
    if count > 0 {
        let c = (count - 1) as nat;
        lemma_pairs_elements(id, start, c);
        let before = key_value_pairs(id, start, c);
        let after = key_value_pairs(id, start, count);
        assert forall|t: int| 0 <= t < count implies #[trigger] after[2 * t] == batched_key(id, (start + t) as nat)
            && after[2 * t + 1] == batched_value() by {
            if t < c {
                assert(before[2 * t] == batched_key(id, (start + t) as nat));
                assert(after[2 * t] == before[2 * t]);
                assert(after[2 * t + 1] == before[2 * t + 1]);
            }
        }
    }
}

/// The run of keys, element by element.
proof fn lemma_run_elements(id: nat, start: nat, count: nat)
    ensures
        key_run(id, start, count).len() == count,
        forall|t: int| 0 <= t < count ==> #[trigger] key_run(id, start, count)[t] == batched_key(id, (start + t) as nat),
    decreases count,
{
    if count > 0 {
        let c = (count - 1) as nat;
        lemma_run_elements(id, start, c);
        let before = key_run(id, start, c);
        let after = key_run(id, start, count);
        assert forall|t: int| 0 <= t < count implies #[trigger] after[t] == batched_key(id, (start + t) as nat) by {
            if t < c {
                assert(after[t] == before[t]);
            }
        }
    }
}

/// Law: the MSET of keys `start .. start + count` of client `id` names `MSET`,
/// then for each key in turn the key and the value; the MGET names `MGET`, then
/// the same keys in the same order.
pub proof fn law_batched_args_layout(id: nat, start: nat, count: nat)
    ensures
        mset_args(id, start, count).len() == 2 * count + 1,
        mset_args(id, start, count)[0] == mset_word(),
        forall|t: int| 0 <= t < count ==> #[trigger] mset_args(id, start, count)[2 * t + 1] == batched_key(
            id,
            (start + t) as nat,
        ) && mset_args(id, start, count)[2 * t + 2] == batched_value(),
        mget_args(id, start, count).len() == count + 1,
        mget_args(id, start, count)[0] == mget_word(),
        forall|t: int| 0 <= t < count ==> #[trigger] mget_args(id, start, count)[t + 1] == batched_key(
            id,
            (start + t) as nat,
        ),
{
    lemma_pairs_elements(id, start, count);
    lemma_run_elements(id, start, count);
    let m = mset_args(id, start, count);
    let g = mget_args(id, start, count);
    let pairs = key_value_pairs(id, start, count);
    let run = key_run(id, start, count);
    assert forall|t: int| 0 <= t < count implies #[trigger] m[2 * t + 1] == batched_key(id, (start + t) as nat)
        && m[2 * t + 2] == batched_value() by {
        assert(m[2 * t + 1] == pairs[2 * t]);
        assert(m[2 * t + 2] == pairs[2 * t + 1]);
    }
    assert forall|t: int| 0 <= t < count implies #[trigger] g[t + 1] == batched_key(id, (start + t) as nat) by {
        assert(g[t + 1] == run[t]);
    }
}

proof fn lemma_pairs_len(id: nat, start: nat, count: nat)
    ensures
        key_value_pairs(id, start, count).len() == 2 * count,
    decreases count,
{
    if count > 0 {
        lemma_pairs_len(id, start, (count - 1) as nat);
    }
}

proof fn lemma_run_len(id: nat, start: nat, count: nat)
    ensures
        key_run(id, start, count).len() == count,
    decreases count,
{
    if count > 0 {
        lemma_run_len(id, start, (count - 1) as nat);
    }
}

} // verus!
