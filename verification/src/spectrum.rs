//! Bookkeeping of the spectrum analysis: the transform size for a frame of
//! samples, and which frequency band each spectrum bin belongs to.
use vstd::prelude::*;

verus! {

/// The smallest transform size.
pub const MIN_FFT_SIZE: usize = 256;

/// `n` is a power of two.
pub open spec fn is_pow2(n: int) -> bool
    decreases n,
{
    if n <= 0 {
        false
    } else if n == 1 {
        true
    } else {
        n % 2 == 0 && is_pow2(n / 2)
    }
}

/// The transform size for `len` samples: the smallest power of two that is
/// at least `len` and at least `MIN_FFT_SIZE`.
pub fn fft_size_for(len: usize) -> (r: usize)
    requires
        len <= usize::MAX / 2 + 1,
    ensures
        is_pow2(r as int),
        r >= MIN_FFT_SIZE,
        r >= len,
        r == MIN_FFT_SIZE || r / 2 < len,
{
    let mut size: usize = MIN_FFT_SIZE;
    assert(is_pow2(256)) by {
        reveal_with_fuel(is_pow2, 10);
    }
    while size < len
        invariant
            len <= usize::MAX / 2 + 1,
            is_pow2(size as int),
            size >= MIN_FFT_SIZE,
            size == MIN_FFT_SIZE || size / 2 < len,
        decreases usize::MAX - size,
    {
        assert((size * 2) / 2 == size);
        size = size * 2;
    }
    size
}

/// The frequency bands the spectrum is split into.
#[derive(Clone, Copy, Debug, PartialEq, Eq, Structural)]
pub enum Band {
    Bass,
    Mid,
    Treble,
}

/// The band of bin `index` out of `bins`: its relative frequency
/// `index / bins` below 1/5 is bass, below 11/20 mid, and treble above.
pub open spec fn band_spec(index: int, bins: int) -> Band {
    if 5 * index < bins {
        Band::Bass
    } else if 20 * index < 11 * bins {
        Band::Mid
    } else {
        Band::Treble
    }
}

/// The band that spectrum bin `index` out of `bins` belongs to.
pub fn band_for_bin(index: usize, bins: usize) -> (b: Band)
    ensures
        b == band_spec(index as int, bins as int),
{
    let i = index as u128;
    let n = bins as u128;
    if 5 * i < n {
        Band::Bass
    } else if 20 * i < 11 * n {
        Band::Mid
    } else {
        Band::Treble
    }
}

} // verus!
