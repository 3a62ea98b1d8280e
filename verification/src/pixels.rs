//! Pixel data for the on-screen preview.

use vstd::prelude::*;

verus! {

/// The RGBA bytes of RGB pixel data: every group of three bytes, and the
/// shorter last group if any, followed by an opaque alpha byte 255.
pub open spec fn rgba_of(bytes: Seq<u8>) -> Seq<u8>
    decreases bytes.len(),
{
    if bytes.len() == 0 {
        seq![]
    } else if bytes.len() <= 3 {
        bytes.push(255)
    } else {
        bytes.take(3).push(255) + rgba_of(bytes.skip(3))
    }
}

/// Adds an opaque alpha channel to RGB pixel data.
pub fn rgb_to_rgba(bytes: &Vec<u8>) -> (out: Vec<u8>)
    ensures
        out@ == rgba_of(bytes@),
{
    let n = bytes.len();
    let mut out: Vec<u8> = Vec::new();
    let mut i: usize = 0;
    assert(bytes@.skip(0) =~= bytes@);
    while i < n
        invariant
            n == bytes@.len(),
            i <= n,
            out@ + rgba_of(bytes@.skip(i as int)) == rgba_of(bytes@),
        decreases n - i,
    {
        let ghost rest = bytes@.skip(i as int);
        let end = if n - i < 3 { n } else { i + 3 };
        let mut k = i;
        let ghost before = out@;
        while k < end
            invariant
                i <= k <= end <= n,
                n == bytes@.len(),
                out@ == before + bytes@.subrange(i as int, k as int),
            decreases end - k,
        {
            out.push(bytes[k]);
            assert(bytes@.subrange(i as int, k + 1) =~= bytes@.subrange(i as int, k as int).push(bytes@[k as int]));
            k = k + 1;
        }
        out.push(255);
        if n - i <= 3 {
            assert(bytes@.subrange(i as int, end as int) =~= rest);
            assert(bytes@.skip(end as int) =~= Seq::<u8>::empty());
        } else {
            assert(bytes@.subrange(i as int, end as int) =~= rest.take(3));
            assert(rest.skip(3) =~= bytes@.skip(end as int));
        }
        assert(out@ + rgba_of(bytes@.skip(end as int)) =~= rgba_of(bytes@));
        i = end;
    }
    assert(bytes@.skip(n as int) =~= Seq::<u8>::empty());
    assert(out@ =~= rgba_of(bytes@));
    out
}

} // verus!
