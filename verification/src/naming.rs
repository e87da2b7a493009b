//! Deterministic frame-file naming.
//!
//! Each rendered frame is persisted under a stable, documented name of
//! the form `<dir>/<index>_<basename>.<ext>`, with `<index>` the
//! zero-based step number in decimal: outside tooling consumes frames
//! by this pattern, so the name is part of the library's contract.

use vstd::prelude::*;

verus! {

/// The decimal digits of `x`, most significant first, as ASCII bytes.
pub open spec fn dec_bytes(x: int) -> Seq<u8>
    recommends
        0 <= x,
    decreases x,
{
    if x < 10 {
        seq![(48 + x) as u8]
    } else {
        dec_bytes(x / 10).push((48 + x % 10) as u8)
    }
}

/// The frame-file name `<dir>/<index>_<base>.<ext>`, as bytes
/// (47, 95 and 46 are `/`, `_` and `.`).
pub open spec fn frame_name_spec(dir: Seq<u8>, index: u32, base: Seq<u8>, ext: Seq<u8>) -> Seq<
    u8,
> {
    dir + seq![47u8] + dec_bytes(index as int) + seq![95u8] + base + seq![46u8] + ext
}

/// Appends the bytes of `src` to `out`.
pub fn push_bytes(out: &mut Vec<u8>, src: &Vec<u8>)
    ensures
        final(out)@ == old(out)@ + src@,
{
    let mut i: usize = 0;
    while i < src.len()
        invariant
            i <= src@.len(),
            out@ == old(out)@ + src@.take(i as int),
        decreases src@.len() - i,
    {
        out.push(src[i]);
        proof {
            assert(old(out)@ + src@.take(i as int) + seq![src@[i as int]] =~= old(out)@
                + src@.take(i as int + 1));
        }
        i = i + 1;
    }
    proof {
        assert(src@.take(src@.len() as int) =~= src@);
    }
}

/// Appends the decimal representation of `x` to `out`.
pub fn push_decimal(out: &mut Vec<u8>, x: u32)
    ensures
        final(out)@ == old(out)@ + dec_bytes(x as int),
    decreases x,
{
    if x >= 10 {
        push_decimal(out, x / 10);
        out.push(48 + (x % 10) as u8);
        proof {
            assert(old(out)@ + dec_bytes((x / 10) as int) + seq![(48 + (x as int) % 10) as u8]
                =~= old(out)@ + dec_bytes(x as int));
        }
    } else {
        out.push(48 + x as u8);
        proof {
            assert(old(out)@ + seq![(48 + x as int) as u8] =~= old(out)@ + dec_bytes(x as int));
        }
    }
}

/// Builds the deterministic frame-file name `<dir>/<index>_<base>.<ext>`
/// for the frame of step `index`.
pub fn frame_name(dir: &Vec<u8>, index: u32, base: &Vec<u8>, ext: &Vec<u8>) -> (out: Vec<u8>)
    ensures
        out@ == frame_name_spec(dir@, index, base@, ext@),
{
    let mut out: Vec<u8> = Vec::new();
    push_bytes(&mut out, dir);
    out.push(47);
    push_decimal(&mut out, index);
    out.push(95);
    push_bytes(&mut out, base);
    out.push(46);
    push_bytes(&mut out, ext);
    proof {
        assert(out@ =~= frame_name_spec(dir@, index, base@, ext@));
    }
    out
}

} // verus!
