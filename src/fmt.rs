//! Writing text into byte buffers.
use vstd::prelude::*;

verus! {

/// The decimal digits of `n`, most significant first, without leading
/// zeros.
pub open spec fn decimal(n: nat) -> Seq<u8>
    decreases n,
{
    if n < 10 {
        seq![(48 + n) as u8]
    } else {
        decimal(n / 10).push((48 + n % 10) as u8)
    }
}

/// The decimal digits of `n`, with zeros in front up to `width` digits.
pub open spec fn zero_padded(n: nat, width: nat) -> Seq<u8> {
    let d = decimal(n);
    if d.len() >= width {
        d
    } else {
        Seq::new((width - d.len()) as nat, |i: int| 48u8) + d
    }
}

/// A writer that appends text to a byte buffer.
#[derive(Clone, Debug, PartialEq, Eq)]
pub struct WriteToPtr {
    /// What has been written so far.
    pub buffer: Vec<u8>,
}

fn push_decimal(out: &mut Vec<u8>, n: u32)
    ensures
        final(out)@ == old(out)@ + decimal(n as nat),
    decreases n,
{
    if n >= 10 {
        push_decimal(out, n / 10);
    }
    out.push((n % 10) as u8 + 48u8);
    proof {
        assert(final(out)@ =~= old(out)@ + decimal(n as nat));
    }
}

impl WriteToPtr {
    /// A writer with an empty buffer.
    pub fn new() -> (r: WriteToPtr)
        ensures
            r.buffer@ == Seq::<u8>::empty(),
    {
        WriteToPtr { buffer: Vec::new() }
    }

    /// Append bytes.
    pub fn write_str(&mut self, s: &[u8])
        ensures
            final(self).buffer@ == old(self).buffer@ + s@,
    {
        let mut i: usize = 0;
        while i < s.len()
            invariant
                i <= s@.len(),
                self.buffer@ == old(self).buffer@ + s@.subrange(0, i as int),
            decreases s@.len() - i,
        {
            self.buffer.push(s[i]);
            i = i + 1;
            proof {
                assert(self.buffer@ =~= old(self).buffer@ + s@.subrange(0, i as int));
            }
        }
        proof {
            assert(s@.subrange(0, s@.len() as int) =~= s@);
        }
    }

    /// Append `value` in decimal, with zeros in front up to `width` digits.
    pub fn write_fmt(&mut self, value: u32, width: usize)
        ensures
            final(self).buffer@ == old(self).buffer@ + zero_padded(value as nat, width as nat),
    {
        let mut digits: Vec<u8> = Vec::new();
        push_decimal(&mut digits, value);
        proof {
            assert(digits@ =~= decimal(value as nat));
        }
        if digits.len() < width {
            let pad = width - digits.len();
            let mut i: usize = 0;
            while i < pad
                invariant
                    i <= pad,
                    self.buffer@ == old(self).buffer@ + Seq::new(i as nat, |j: int| 48u8),
                decreases pad - i,
            {
                self.buffer.push(48u8);
                i = i + 1;
                proof {
                    assert(self.buffer@ =~= old(self).buffer@ + Seq::new(i as nat, |j: int| 48u8));
                }
            }
        }
        let ghost before = self.buffer@;
        self.write_str(digits.as_slice());
        proof {
            assert(self.buffer@ =~= old(self).buffer@ + zero_padded(value as nat, width as nat));
        }
    }
}

} // verus!
