//! IQ samples in Q15 fixed point, and their conversion from the raw bytes
//! the tuner hardware delivers.

use vstd::prelude::*;

verus! {

/// One complex IQ sample in Q15 fixed point: the real value is the field
/// divided by 32768, so the nominal signal range [-1, 1] is [-32768, 32768].
#[derive(Debug, Clone, Copy, PartialEq, Eq, Structural)]
pub struct IqSample {
    pub re: i32,
    pub im: i32,
}

/// Both components of the sample lie in the nominal Q15 signal range.
pub open spec fn iq_in_range(s: IqSample) -> bool {
    -32768 <= s.re <= 32768 && -32768 <= s.im <= 32768
}

/// Every sample of the batch lies in the nominal signal range.
pub open spec fn iq_batch_in_range(s: Seq<IqSample>) -> bool {
    forall|i: int| 0 <= i < s.len() ==> iq_in_range(#[trigger] s[i])
}

/// Every audio sample of the batch lies in the Q15 audio range [-1, 1].
pub open spec fn audio_in_range(s: Seq<i32>) -> bool {
    forall|i: int| 0 <= i < s.len() ==> -32768 <= #[trigger] s[i] <= 32768
}

/// Convert raw interleaved 8-bit I/Q bytes, centered at 127.5, to Q15
/// samples: the byte `b` becomes `(b - 127.5) / 128` in real terms, which is
/// `(2 b - 255) * 128` in Q15 exactly. An odd trailing byte is dropped.
pub fn samples_u8_to_complex(bytes: &Vec<u8>) -> (r: Vec<IqSample>)
    ensures
        r@.len() == bytes@.len() / 2,
        forall|k: int| 0 <= k < r@.len() ==> #[trigger] r@[k].re == (2 * (bytes@[2 * k] as int)
            - 255) * 128 && r@[k].im == (2 * (bytes@[2 * k + 1] as int) - 255) * 128,
        iq_batch_in_range(r@),
{
    let total = bytes.len();
    let n = total / 2;
    let mut r: Vec<IqSample> = Vec::new();
    let mut k: usize = 0;
    while k < n
        invariant
            total == bytes@.len(),
            n == bytes@.len() / 2,
            k <= n,
            r@.len() == k,
            forall|j: int| 0 <= j < k ==> #[trigger] r@[j].re == (2 * (bytes@[2 * j] as int) - 255)
                * 128 && r@[j].im == (2 * (bytes@[2 * j + 1] as int) - 255) * 128,
            iq_batch_in_range(r@),
        decreases n - k,
    {
        proof {
            vstd::arithmetic::div_mod::lemma_fundamental_div_mod(bytes@.len() as int, 2);
            assert(2 * k + 1 < bytes@.len());
        }
        let b0 = bytes[2 * k];
        let b1 = bytes[2 * k + 1];
        let re = (2 * (b0 as i32) - 255) * 128;
        let im = (2 * (b1 as i32) - 255) * 128;
        r.push(IqSample { re, im });
        k = k + 1;
    }
    r
}

} // verus!
