use vstd::prelude::*;

verus! {

/// The low `width` bytes of `x`, least significant first.
pub open spec fn le_bytes(x: nat, width: nat) -> Seq<u8>
    decreases width,
{
    if width == 0 {
        Seq::empty()
    } else {
        seq![(x % 256) as u8] + le_bytes(x / 256, (width - 1) as nat)
    }
}

/// Appends the low `width` bytes of `x` to `out`, least significant first.
pub fn push_le(out: &mut Vec<u8>, x: u64, width: usize)
    ensures
        final(out)@ == old(out)@ + le_bytes(x as nat, width as nat),
{
    let mut v: u64 = x;
    let mut i: usize = 0;
    while i < width
        invariant
            i <= width,
            out@ + le_bytes(v as nat, (width - i) as nat) == old(out)@ + le_bytes(x as nat, width as nat),
        decreases width - i,
    {
        let ghost prev = out@;
        out.push((v % 256) as u8);
        assert(prev + le_bytes(v as nat, (width - i) as nat)
            =~= out@ + le_bytes((v / 256) as nat, (width - i - 1) as nat));
        v = v / 256;
        i = i + 1;
    }
}

} // verus!
