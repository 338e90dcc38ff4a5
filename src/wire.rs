//! The wire format as a mathematical object: how payloads are encoded back
//! to back, and which payloads a byte sequence decodes to.

use vstd::prelude::*;
use crate::parser::be16;

verus! {

/// The two header bytes that announce a payload of `n` bytes.
pub open spec fn header_of(n: u16) -> Seq<u8> {
    seq![(n / 256) as u8, (n % 256) as u8]
}

/// A payload together with its header, as it travels on the wire.
pub open spec fn encode(p: Seq<u8>) -> Seq<u8> {
    header_of(p.len() as u16) + p
}

/// The wire bytes of the payloads `ps`, sent back to back.
pub open spec fn encode_all(ps: Seq<Seq<u8>>) -> Seq<u8>
    decreases ps.len(),
{
    if ps.len() == 0 {
        Seq::<u8>::empty()
    } else {
        encode(ps[0]) + encode_all(ps.drop_first())
    }
}

/// Every payload fits the 16-bit length field.
pub open spec fn fits(ps: Seq<Seq<u8>>) -> bool {
    forall|i: int| 0 <= i < ps.len() ==> #[trigger] ps[i].len() <= 0xffff
}

/// The payloads of the complete frames at the front of `s`, in order; bytes
/// after the last complete frame belong to a frame not yet complete.
pub open spec fn frames(s: Seq<u8>) -> Seq<Seq<u8>>
    decreases s.len(),
{
    if s.len() < 2 {
        Seq::empty()
    } else {
        let n = be16(s[0], s[1]) as int;
        if s.len() < 2 + n {
            Seq::empty()
        } else {
            seq![s.subrange(2, 2 + n)] + frames(s.subrange(2 + n, s.len() as int))
        }
    }
}

/// A header built from a length announces that length.
pub proof fn lemma_be16_of_header(n: u16)
    ensures
        be16(header_of(n)[0], header_of(n)[1]) == n,
{
}

/// Building a header from the length that two bytes announce gives back
/// those two bytes.
pub proof fn lemma_header_of_be16(hi: u8, lo: u8)
    ensures
        be16(hi, lo) <= 0xffff,
        header_of(be16(hi, lo) as u16) == seq![hi, lo],
{
    let m = be16(hi, lo);
    assert(m / 256 == hi as nat && m % 256 == lo as nat);
    assert(header_of(m as u16) =~= seq![hi, lo]);
}

/// Encoding one more payload appends its wire bytes.
pub proof fn lemma_encode_all_push(ps: Seq<Seq<u8>>, p: Seq<u8>)
    ensures
        encode_all(ps.push(p)) == encode_all(ps) + encode(p),
    decreases ps.len(),
{
    if ps.len() == 0 {
        assert(ps.push(p).drop_first() =~= Seq::<Seq<u8>>::empty());
        assert(encode_all(Seq::<Seq<u8>>::empty()) == Seq::<u8>::empty());
        assert(ps.push(p)[0] == p);
        assert(encode_all(ps.push(p)) =~= encode_all(ps) + encode(p));
    } else {
        assert(ps.push(p).drop_first() =~= ps.drop_first().push(p));
        lemma_encode_all_push(ps.drop_first(), p);
        assert(ps.push(p)[0] == ps[0]);
        assert(encode_all(ps.push(p)) == encode(ps[0]) + (encode_all(ps.drop_first()) + encode(p)));
        assert(encode_all(ps.push(p)) =~= encode_all(ps) + encode(p));
    }
}

/// Whatever follows a run of encoded frames, decoding yields those frames
/// first, in order, then whatever the rest decodes to.
pub proof fn lemma_frames_after_encoding(ps: Seq<Seq<u8>>, rest: Seq<u8>)
    requires
        fits(ps),
    ensures
        frames(encode_all(ps) + rest) == ps + frames(rest),
    decreases ps.len(),
{
    if ps.len() == 0 {
        assert(encode_all(ps) + rest =~= rest);
        assert(ps + frames(rest) =~= frames(rest));
    } else {
        let p = ps[0];
        let tail = ps.drop_first();
        assert(fits(tail)) by {
            assert forall|i: int| 0 <= i < tail.len() implies #[trigger] tail[i].len() <= 0xffff by {
                assert(tail[i] == ps[i + 1]);
            }
        }
        lemma_frames_after_encoding(tail, rest);
        let n = p.len() as int;
        let u = encode_all(ps) + rest;
        assert(p.len() <= 0xffff);
        lemma_be16_of_header(p.len() as u16);
        assert(u =~= header_of(p.len() as u16) + (p + (encode_all(tail) + rest)));
        assert(u[0] == header_of(p.len() as u16)[0]);
        assert(u[1] == header_of(p.len() as u16)[1]);
        assert(u.subrange(2, 2 + n) =~= p);
        assert(u.subrange(2 + n, u.len() as int) =~= encode_all(tail) + rest);
        assert(ps =~= seq![p] + tail);
        assert(frames(u) =~= ps + frames(rest));
    }
}

/// Round trip: payloads sent back to back decode to exactly those payloads,
/// in the order they were sent.
pub proof fn lemma_round_trip(ps: Seq<Seq<u8>>)
    requires
        fits(ps),
    ensures
        frames(encode_all(ps)) == ps,
{
    lemma_frames_after_encoding(ps, Seq::empty());
    assert(encode_all(ps) + Seq::<u8>::empty() =~= encode_all(ps));
    assert(ps + frames(Seq::<u8>::empty()) =~= ps);
}

/// Bytes that arrive later never change the frames already complete: the
/// frames of `s` are the first frames of `s + t`.
pub proof fn lemma_frames_prefix(s: Seq<u8>, t: Seq<u8>)
    ensures
        frames(s).len() <= frames(s + t).len(),
        frames(s) == frames(s + t).subrange(0, frames(s).len() as int),
    decreases s.len(),
{
    let u = s + t;
    if s.len() < 2 {
        assert(frames(s) =~= frames(u).subrange(0, 0));
    } else {
        let n = be16(s[0], s[1]) as int;
        assert(u[0] == s[0] && u[1] == s[1]);
        if s.len() < 2 + n {
            assert(frames(s) =~= frames(u).subrange(0, 0));
        } else {
            let r = s.subrange(2 + n, s.len() as int);
            assert(u.subrange(2, 2 + n) =~= s.subrange(2, 2 + n));
            assert(u.subrange(2 + n, u.len() as int) =~= r + t);
            lemma_frames_prefix(r, t);
            assert(frames(s) =~= frames(u).subrange(0, frames(s).len() as int));
        }
    }
}

} // verus!
