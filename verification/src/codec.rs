//! The persisted layout of the pool record: every field in a fixed order,
//! little-endian words, the participant list prefixed with an explicit
//! count, the optional last winner behind a one-byte tag. `encode_pool`
//! produces exactly this layout and `decode_pool` accepts nothing that does
//! not re-encode to the very bytes it was given.

use vstd::prelude::*;

use crate::pool::Identity;
use crate::pool::Pool;

verus! {

/// The eight little-endian bytes of a 64-bit word.
pub open spec fn le8(v: u64) -> Seq<u8> {
    seq![
        (v % 0x100) as u8,
        ((v / 0x100) % 0x100) as u8,
        ((v / 0x1_0000) % 0x100) as u8,
        ((v / 0x100_0000) % 0x100) as u8,
        ((v / 0x1_0000_0000) % 0x100) as u8,
        ((v / 0x100_0000_0000) % 0x100) as u8,
        ((v / 0x1_0000_0000_0000) % 0x100) as u8,
        ((v / 0x100_0000_0000_0000) % 0x100) as u8,
    ]
}

/// An identity's 32 bytes: its four words, little-endian, in order.
pub open spec fn encoded_identity(id: Identity) -> Seq<u8> {
    le8(id.w0) + le8(id.w1) + le8(id.w2) + le8(id.w3)
}

/// The participant list's bytes: each identity's encoding, in order.
pub open spec fn encoded_identities(s: Seq<Identity>) -> Seq<u8>
    decreases s.len(),
{
    if s.len() == 0 {
        Seq::empty()
    } else {
        encoded_identities(s.drop_last()) + encoded_identity(s.last())
    }
}

/// The last-winner field's bytes: a zero tag when absent, a one tag
/// followed by the identity when present.
pub open spec fn encoded_last_winner(w: Option<Identity>) -> Seq<u8> {
    match w {
        None => seq![0u8],
        Some(id) => seq![1u8] + encoded_identity(id),
    }
}

/// The whole record's bytes: operator, entry amount, the two shares, the
/// accumulated amount, the participant count, the participants, the last
/// winner.
pub open spec fn encoded_pool(p: Pool) -> Seq<u8> {
    encoded_identity(p.operator) + le8(p.entry_amount) + seq![p.winner_share_percent]
        + seq![p.owner_share_percent] + le8(p.accumulated_amount) + le8(
        p.participants@.len() as u64,
    ) + encoded_identities(p.participants@) + encoded_last_winner(p.last_winner)
}

/// Appends a 64-bit word, little-endian.
fn push_u64_le(out: &mut Vec<u8>, v: u64)
    ensures
        final(out)@ == old(out)@ + le8(v),
{
    out.push((v % 0x100) as u8);
    out.push(((v / 0x100) % 0x100) as u8);
    out.push(((v / 0x1_0000) % 0x100) as u8);
    out.push(((v / 0x100_0000) % 0x100) as u8);
    out.push(((v / 0x1_0000_0000) % 0x100) as u8);
    out.push(((v / 0x100_0000_0000) % 0x100) as u8);
    out.push(((v / 0x1_0000_0000_0000) % 0x100) as u8);
    out.push(((v / 0x100_0000_0000_0000) % 0x100) as u8);
    proof {
        assert(out@ =~= old(out)@ + le8(v));
    }
}

/// Appends an identity's 32 bytes.
fn push_identity(out: &mut Vec<u8>, id: Identity)
    ensures
        final(out)@ == old(out)@ + encoded_identity(id),
{
    push_u64_le(out, id.w0);
    push_u64_le(out, id.w1);
    push_u64_le(out, id.w2);
    push_u64_le(out, id.w3);
    proof {
        assert(out@ =~= old(out)@ + encoded_identity(id));
    }
}

/// Serializes the pool record into its persisted layout.
pub fn encode_pool(p: &Pool) -> (r: Vec<u8>)
    ensures
        r@ == encoded_pool(*p),
{
    let ghost header = encoded_identity(p.operator) + le8(p.entry_amount) + seq![
        p.winner_share_percent,
    ] + seq![p.owner_share_percent] + le8(p.accumulated_amount) + le8(
        p.participants@.len() as u64,
    );
    let mut out: Vec<u8> = Vec::new();
    push_identity(&mut out, p.operator);
    push_u64_le(&mut out, p.entry_amount);
    out.push(p.winner_share_percent);
    out.push(p.owner_share_percent);
    push_u64_le(&mut out, p.accumulated_amount);
    push_u64_le(&mut out, p.participants.len() as u64);
    proof {
        assert(out@ =~= header);
    }
    let mut i: usize = 0;
    while i < p.participants.len()
        invariant
            i <= p.participants@.len(),
            out@ == header + encoded_identities(p.participants@.take(i as int)),
        decreases p.participants@.len() - i,
    {
        push_identity(&mut out, p.participants[i]);
        proof {
            let taken = p.participants@.take(i as int + 1);
            assert(taken.drop_last() =~= p.participants@.take(i as int));
            assert(taken.last() == p.participants@[i as int]);
            assert(out@ =~= header + encoded_identities(taken));
        }
        i = i + 1;
    }
    proof {
        assert(p.participants@.take(p.participants@.len() as int) =~= p.participants@);
    }
    match &p.last_winner {
        None => {
            out.push(0);
        },
        Some(w) => {
            out.push(1);
            push_identity(&mut out, *w);
        },
    }
    proof {
        assert(out@ =~= encoded_pool(*p));
    }
    out
}

/// Reads the 64-bit little-endian word at `at`.
#[verifier::rlimit(50)]
fn read_u64_le(data: &Vec<u8>, at: usize) -> (r: u64)
    requires
        at + 8 <= data.len(),
    ensures
        le8(r) == data@.subrange(at as int, at as int + 8),
{
    let b0 = data[at];
    let b1 = data[at + 1];
    let b2 = data[at + 2];
    let b3 = data[at + 3];
    let b4 = data[at + 4];
    let b5 = data[at + 5];
    let b6 = data[at + 6];
    let b7 = data[at + 7];
    let v = (b0 as u64) + (b1 as u64) * 0x100 + (b2 as u64) * 0x1_0000 + (b3 as u64) * 0x100_0000
        + (b4 as u64) * 0x1_0000_0000 + (b5 as u64) * 0x100_0000_0000 + (b6 as u64)
        * 0x1_0000_0000_0000 + (b7 as u64) * 0x100_0000_0000_0000;
    proof {
        assert({
            &&& v % 0x100 == b0 as u64
            &&& (v / 0x100) % 0x100 == b1 as u64
            &&& (v / 0x1_0000) % 0x100 == b2 as u64
            &&& (v / 0x100_0000) % 0x100 == b3 as u64
            &&& (v / 0x1_0000_0000) % 0x100 == b4 as u64
            &&& (v / 0x100_0000_0000) % 0x100 == b5 as u64
            &&& (v / 0x1_0000_0000_0000) % 0x100 == b6 as u64
            &&& (v / 0x100_0000_0000_0000) % 0x100 == b7 as u64
        }) by (bit_vector)
            requires
                v == (b0 as u64) + (b1 as u64) * 0x100 + (b2 as u64) * 0x1_0000 + (b3 as u64)
                    * 0x100_0000 + (b4 as u64) * 0x1_0000_0000 + (b5 as u64) * 0x100_0000_0000 + (
                b6 as u64) * 0x1_0000_0000_0000 + (b7 as u64) * 0x100_0000_0000_0000,
        ;
        assert(le8(v) =~= data@.subrange(at as int, at as int + 8));
    }
    v
}

/// Reads the 32-byte identity at `at`.
#[verifier::rlimit(50)]
fn read_identity(data: &Vec<u8>, at: usize) -> (r: Identity)
    requires
        at + 32 <= data.len(),
    ensures
        encoded_identity(r) == data@.subrange(at as int, at as int + 32),
{
    let w0 = read_u64_le(data, at);
    let w1 = read_u64_le(data, at + 8);
    let w2 = read_u64_le(data, at + 16);
    let w3 = read_u64_le(data, at + 24);
    let r = Identity { w0, w1, w2, w3 };
    proof {
        let d = data@;
        let a = at as int;
        assert(d.subrange(a, a + 8) + d.subrange(a + 8, a + 16) =~= d.subrange(a, a + 16));
        assert(d.subrange(a, a + 16) + d.subrange(a + 16, a + 24) =~= d.subrange(a, a + 24));
        assert(d.subrange(a, a + 24) + d.subrange(a + 24, a + 32) =~= d.subrange(a, a + 32));
        assert(encoded_identity(r) =~= d.subrange(a, a + 32));
    }
    r
}

/// Parses a pool record out of its persisted layout, in both directions
/// exactly: a successful parse re-encodes to the very bytes it was given,
/// and every byte string that is the encoding of some pool is accepted —
/// only malformed or trailing bytes are rejected.
#[verifier::rlimit(100)]
#[verifier::spinoff_prover]
pub fn decode_pool(data: &Vec<u8>) -> (r: Option<Pool>)
    ensures
        r matches Some(p) ==> encoded_pool(p) == data@,
        (exists|q: Pool| encoded_pool(q) == data@) ==> r is Some,
{
    let n = data.len();
    if n < 59 {
        proof {
            lemma_no_encoding_short(data@);
        }
        return None;
    }
    let operator = read_identity(data, 0);
    let entry_amount = read_u64_le(data, 32);
    let winner_share_percent = data[40];
    let owner_share_percent = data[41];
    let accumulated_amount = read_u64_le(data, 42);
    let count64 = read_u64_le(data, 50);
    let max_count = (n - 59) / 32;
    if count64 > max_count as u64 {
        proof {
            lemma_no_encoding_excess_count(data@, count64);
        }
        return None;
    }
    let count = count64 as usize;
    proof {
        vstd::arithmetic::div_mod::lemma_fundamental_div_mod((n - 59) as int, 32);
        vstd::arithmetic::div_mod::lemma_mod_bound((n - 59) as int, 32);
    }
    let mut participants: Vec<Identity> = Vec::new();
    let mut j: usize = 0;
    while j < count
        invariant
            j <= count,
            count == count64,
            n == data@.len(),
            59 + 32 * count <= n,
            participants@.len() == j,
            encoded_identities(participants@) == data@.subrange(58, 58 + 32 * (j as int)),
        decreases count - j,
    {
        let id = read_identity(data, 58 + 32 * j);
        let ghost prev = participants@;
        participants.push(id);
        proof {
            assert(participants@.drop_last() =~= prev);
            assert(participants@.last() == id);
            assert(data@.subrange(58, 58 + 32 * (j as int)) + data@.subrange(
                58 + 32 * (j as int),
                58 + 32 * (j as int) + 32,
            ) =~= data@.subrange(58, 58 + 32 * (j as int + 1)));
            assert(encoded_identities(participants@) == data@.subrange(
                58,
                58 + 32 * (j as int + 1),
            ));
        }
        j = j + 1;
    }
    let cursor = 58 + 32 * count;
    let tag = data[cursor];
    let last_winner: Option<Identity> = if tag == 0 {
        if n - cursor != 1 {
            proof {
                lemma_no_encoding_bad_tail(data@, count64);
            }
            return None;
        }
        None
    } else if tag == 1 {
        if n - cursor != 33 {
            proof {
                lemma_no_encoding_bad_tail(data@, count64);
            }
            return None;
        }
        Some(read_identity(data, cursor + 1))
    } else {
        proof {
            lemma_no_encoding_bad_tail(data@, count64);
        }
        return None;
    };
    let p = Pool {
        operator,
        entry_amount,
        winner_share_percent,
        owner_share_percent,
        accumulated_amount,
        participants,
        last_winner,
    };
    proof {
        let d = data@;
        let c = cursor as int;
        let nn = n as int;
        assert(seq![p.winner_share_percent] =~= d.subrange(40, 41));
        assert(seq![p.owner_share_percent] =~= d.subrange(41, 42));
        match p.last_winner {
            None => {
                assert(encoded_last_winner(p.last_winner) =~= d.subrange(c, nn));
            },
            Some(w) => {
                assert(seq![1u8] + d.subrange(c + 1, c + 33) =~= d.subrange(c, nn));
                assert(encoded_last_winner(p.last_winner) == seq![1u8] + encoded_identity(w));
            },
        }
        assert(le8(p.participants@.len() as u64) == d.subrange(50, 58));
        lemma_contiguous_chunks(d, c);
        assert(encoded_pool(p) == d);
    }
    Some(p)
}

/// Adjacent stretches of a byte string concatenate back to the whole of
/// it: the record's eight fields sit at these offsets, the participant
/// list ending at `c`.
#[verifier::rlimit(100)]
proof fn lemma_contiguous_chunks(d: Seq<u8>, c: int)
    requires
        58 <= c <= d.len(),
    ensures
        d.subrange(0, 32) + d.subrange(32, 40) + d.subrange(40, 41) + d.subrange(41, 42)
            + d.subrange(42, 50) + d.subrange(50, 58) + d.subrange(58, c) + d.subrange(
            c,
            d.len() as int,
        ) == d,
{
    assert(d.subrange(0, 32) + d.subrange(32, 40) =~= d.subrange(0, 40));
    assert(d.subrange(0, 40) + d.subrange(40, 41) =~= d.subrange(0, 41));
    assert(d.subrange(0, 41) + d.subrange(41, 42) =~= d.subrange(0, 42));
    assert(d.subrange(0, 42) + d.subrange(42, 50) =~= d.subrange(0, 50));
    assert(d.subrange(0, 50) + d.subrange(50, 58) =~= d.subrange(0, 58));
    assert(d.subrange(0, 58) + d.subrange(58, c) =~= d.subrange(0, c));
    assert(d.subrange(0, c) + d.subrange(c, d.len() as int) =~= d.subrange(0, d.len() as int));
    assert(d.subrange(0, d.len() as int) =~= d);
}

/// An identity's encoding is 32 bytes.
proof fn lemma_encoded_identity_len(id: Identity)
    ensures
        encoded_identity(id).len() == 32,
{
    assert(le8(id.w0).len() == 8);
    assert(le8(id.w1).len() == 8);
    assert(le8(id.w2).len() == 8);
    assert(le8(id.w3).len() == 8);
}

/// The participant list's encoding is 32 bytes per identity.
#[verifier::rlimit(50)]
proof fn lemma_encoded_identities_len(s: Seq<Identity>)
    ensures
        encoded_identities(s).len() == 32 * s.len(),
    decreases s.len(),
{
    if s.len() != 0 {
        lemma_encoded_identities_len(s.drop_last());
        lemma_encoded_identity_len(s.last());
    }
}

/// What every encoding looks like from outside: its length is the fixed
/// header, the participant bytes and the tail; the count field carries the
/// participant count; and the byte after the participants is the winner
/// tag.
#[verifier::rlimit(100)]
proof fn lemma_encoding_shape(q: Pool, d: Seq<u8>)
    requires
        encoded_pool(q) == d,
    ensures
        q.participants@.len() <= usize::MAX,
        encoded_last_winner(q.last_winner).len() == (if q.last_winner is None {
            1int
        } else {
            33
        }),
        d.len() == 58 + 32 * q.participants@.len() + encoded_last_winner(q.last_winner).len(),
        d.subrange(50, 58) == le8(q.participants@.len() as u64),
        d[58 + 32 * (q.participants@.len() as int)] == (if q.last_winner is None {
            0u8
        } else {
            1u8
        }),
{
    assert(q.participants.len() == q.participants@.len());
    lemma_encoded_identities_len(q.participants@);
    let k = q.participants@.len() as int;
    let ca = encoded_identity(q.operator);
    let cb = le8(q.entry_amount);
    let cc = seq![q.winner_share_percent];
    let cd = seq![q.owner_share_percent];
    let ce = le8(q.accumulated_amount);
    let cf = le8(q.participants@.len() as u64);
    let cg = encoded_identities(q.participants@);
    let ch = encoded_last_winner(q.last_winner);
    assert(ca.len() == 32);
    assert(cb.len() == 8 && ce.len() == 8 && cf.len() == 8);
    assert(cc.len() == 1 && cd.len() == 1);
    assert(cg.len() == 32 * k);
    match q.last_winner {
        None => {
            assert(ch.len() == 1 && ch[0] == 0);
        },
        Some(w) => {
            assert(encoded_identity(w).len() == 32);
            assert(ch.len() == 33 && ch[0] == 1);
        },
    }
    assert((ca + cb + cc + cd + ce).len() == 50);
    assert((ca + cb + cc + cd + ce + cf).len() == 58);
    assert((ca + cb + cc + cd + ce + cf + cg).len() == 58 + 32 * k);
    assert(d.subrange(50, 58) =~= cf);
    assert(d[58 + 32 * k] == ch[0]);
}

/// The count field determines the participant count: whatever pool
/// encodes to `d`, its list is as long as the word at the count offset
/// says.
proof fn lemma_count_determined(q: Pool, d: Seq<u8>, count64: u64)
    requires
        encoded_pool(q) == d,
        le8(count64) == d.subrange(50, 58),
    ensures
        count64 == q.participants@.len(),
{
    lemma_encoding_shape(q, d);
    crate::laws::lemma_le8_round_trip(count64);
    crate::laws::lemma_le8_round_trip(q.participants@.len() as u64);
}

/// Fewer than 59 bytes cannot be an encoding: the fixed fields and the
/// winner tag alone take that much.
proof fn lemma_no_encoding_short(d: Seq<u8>)
    requires
        d.len() < 59,
    ensures
        forall|q: Pool| encoded_pool(q) != d,
{
    assert forall|q: Pool| encoded_pool(q) != d by {
        if encoded_pool(q) == d {
            lemma_encoding_shape(q, d);
        }
    }
}

/// A count field promising more participants than the bytes after the
/// header can hold rules every pool out.
proof fn lemma_no_encoding_excess_count(d: Seq<u8>, count64: u64)
    requires
        d.len() >= 59,
        le8(count64) == d.subrange(50, 58),
        count64 > (d.len() - 59) as int / 32,
    ensures
        forall|q: Pool| encoded_pool(q) != d,
{
    assert forall|q: Pool| encoded_pool(q) != d by {
        if encoded_pool(q) == d {
            lemma_count_determined(q, d, count64);
            lemma_encoding_shape(q, d);
            let k = count64 as int;
            vstd::arithmetic::div_mod::lemma_div_multiples_vanish(k, 32);
            vstd::arithmetic::div_mod::lemma_div_is_ordered(
                32 * k,
                (d.len() - 59) as int,
                32,
            );
        }
    }
}

/// After the participants there is room for nothing but the winner
/// field: a tag of zero with exactly one byte left, or a tag of one with
/// exactly thirty-three. Any other tail rules every pool out.
proof fn lemma_no_encoding_bad_tail(d: Seq<u8>, count64: u64)
    requires
        le8(count64) == d.subrange(50, 58),
        58 + 32 * (count64 as int) < d.len(),
        ({
            let c = 58 + 32 * (count64 as int);
            &&& !(d[c] == 0 && d.len() - c == 1)
            &&& !(d[c] == 1 && d.len() - c == 33)
        }),
    ensures
        forall|q: Pool| encoded_pool(q) != d,
{
    assert forall|q: Pool| encoded_pool(q) != d by {
        if encoded_pool(q) == d {
            lemma_count_determined(q, d, count64);
            lemma_encoding_shape(q, d);
        }
    }
}

} // verus!
