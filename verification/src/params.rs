use vstd::prelude::*;

verus! {

use crate::errors::PipelineError;
use vstd::arithmetic::div_mod::lemma_fundamental_div_mod;
use vstd::arithmetic::div_mod::lemma_div_denominator;
use vstd::arithmetic::div_mod::lemma_div_pos_is_pos;
use vstd::arithmetic::div_mod::lemma_multiply_divide_lt;
use vstd::arithmetic::div_mod::lemma_small_mod;

/// Mathematical view of a [`Parameters`] value: the field values freed from
/// their machine-integer representation.
pub ghost struct ParametersView {
    pub num_samples: int,
    pub num_alleles: int,
    pub boundaries: Seq<int>,
}

/// The per-chunk parameter descriptor.
///
/// Created once when the chunk is made and read-only afterwards; every later
/// stage of the pipeline reads it to learn the chunk's sample count, its
/// number of allele positions, and the window boundaries that divide the
/// chunk into sections.
#[derive(Debug)]
pub struct Parameters {
    pub num_samples: usize,
    pub num_alleles: usize,
    pub num_windows: usize,
    /// `num_windows + 1` strictly increasing positions; window `i` spans
    /// `[window_boundaries[i], window_boundaries[i + 1])`.
    pub window_boundaries: Vec<usize>,
}

impl View for Parameters {
    type V = ParametersView;

    open spec fn view(&self) -> ParametersView {
        ParametersView {
            num_samples: self.num_samples as int,
            num_alleles: self.num_alleles as int,
            boundaries: self.window_boundaries@.map_values(|b: usize| b as int),
        }
    }
}

impl Parameters {
    /// The descriptor's invariant.  Boundaries are strictly increasing, start
    /// at or after position zero, and end at or before `num_alleles`; all
    /// fields fit the 32-bit signed words of the binary layout.
    pub open spec fn wf(self) -> bool {
        &&& 1 <= self.num_samples <= 0x7fff_ffff
        &&& self.num_alleles <= 0x7fff_ffff
        &&& 1 <= self.num_windows
        &&& self.num_windows + 1 <= 0x7fff_ffff
        &&& self.window_boundaries@.len() == self.num_windows + 1
        &&& forall|i: int|
            0 <= i < self.num_windows ==> #[trigger] self.window_boundaries@[i]
                < self.window_boundaries@[i + 1]
        &&& self.window_boundaries@[self.num_windows as int] <= self.num_alleles
    }
}

/// Byte `k` (little-endian, `0 <= k < 4`) of the 32-bit word encoding the
/// non-negative value `v`.
pub open spec fn le_byte(v: int, k: int) -> u8 {
    if k == 0 {
        (v % 256) as u8
    } else if k == 1 {
        ((v / 256) % 256) as u8
    } else if k == 2 {
        ((v / 65536) % 256) as u8
    } else {
        ((v / 16777216) % 256) as u8
    }
}

/// The value of the 32-bit little-endian word starting at offset `i` of `b`.
pub open spec fn word_at(b: Seq<u8>, i: int) -> int {
    b[i] + 256 * (b[i + 1] + 256 * (b[i + 2] + 256 * b[i + 3]))
}

/// Reassembling the four little-endian bytes of a 32-bit value gives the
/// value back.
pub proof fn lemma_le_word_round_trip(v: int)
    requires
        0 <= v < 0x1_0000_0000,
    ensures
        le_byte(v, 0) + 256 * (le_byte(v, 1) + 256 * (le_byte(v, 2) + 256 * le_byte(v, 3))) == v,
{
    lemma_fundamental_div_mod(v, 256);
    lemma_div_pos_is_pos(v, 256);
    lemma_fundamental_div_mod(v / 256, 256);
    lemma_div_denominator(v, 256, 256);
    lemma_div_pos_is_pos(v / 256, 256);
    lemma_fundamental_div_mod(v / 65536, 256);
    lemma_div_denominator(v, 65536, 256);
    lemma_div_pos_is_pos(v / 65536, 256);
    lemma_div_pos_is_pos(v / 16777216, 256);
    lemma_multiply_divide_lt(v, 16777216, 256);
    lemma_small_mod((v / 16777216) as nat, 256);
}

/// The 32-bit words of the binary descriptor layout, in order: the sample
/// count, the allele count, the boundary count `num_windows + 1`, then the
/// boundaries themselves.
pub open spec fn encoded_word(p: Parameters, w: int) -> int {
    if w == 0 {
        p.num_samples as int
    } else if w == 1 {
        p.num_alleles as int
    } else if w == 2 {
        p.num_windows + 1
    } else {
        p.window_boundaries@[w - 3] as int
    }
}

/// The binary layout of a descriptor: `num_windows + 4` consecutive 32-bit
/// little-endian words, as listed by [`encoded_word`].
pub open spec fn spec_encode(p: Parameters) -> Seq<u8> {
    Seq::new((16 + 4 * p.num_windows) as nat, |j: int| le_byte(encoded_word(p, j / 4), j % 4))
}

/// Whether the descriptor's three header words can be read from `b` and
/// announce a boundary list that `b` is long enough to hold.
pub open spec fn parse_header_ok(b: Seq<u8>) -> bool {
    &&& b.len() >= 12
    &&& 1 <= word_at(b, 0) <= 0x7fff_ffff
    &&& word_at(b, 4) <= 0x7fff_ffff
    &&& 2 <= word_at(b, 8) <= 0x7fff_ffff
    &&& b.len() >= 12 + 4 * word_at(b, 8)
}

/// The boundary words of `b`, read after the three header words.
pub open spec fn parsed_boundaries(b: Seq<u8>) -> Seq<int> {
    Seq::new(word_at(b, 8) as nat, |i: int| word_at(b, 12 + 4 * i))
}

/// Whether `b` holds a valid descriptor: readable header, strictly
/// increasing boundaries, last boundary at or before the allele count.
pub open spec fn parse_ok(b: Seq<u8>) -> bool {
    &&& parse_header_ok(b)
    &&& forall|i: int|
        0 <= i < word_at(b, 8) - 1 ==> #[trigger] parsed_boundaries(b)[i] < parsed_boundaries(
            b,
        )[i + 1]
    &&& parsed_boundaries(b)[word_at(b, 8) - 1] <= word_at(b, 4)
}

/// The descriptor stored in the bytes `b`, if they hold a valid one.
/// Trailing bytes after the boundary words are ignored.
pub open spec fn spec_parse(b: Seq<u8>) -> Option<ParametersView> {
    if parse_ok(b) {
        Some(
            ParametersView {
                num_samples: word_at(b, 0),
                num_alleles: word_at(b, 4),
                boundaries: parsed_boundaries(b),
            },
        )
    } else {
        None
    }
}

/// Window boundaries of a well-formed descriptor are strictly increasing:
/// not merely from one window to the next, but between any two of them.
pub proof fn lemma_boundaries_strictly_increasing(p: Parameters, i: int, j: int)
    requires
        p.wf(),
        0 <= i < j < p.window_boundaries@.len(),
    ensures
        p.window_boundaries@[i] < p.window_boundaries@[j],
    decreases j - i,
{
    if i + 1 < j {
        lemma_boundaries_strictly_increasing(p, i + 1, j);
    }
}

/// Every window boundary of a well-formed descriptor lies at or before the
/// chunk's last allele position, and so fits a 32-bit signed word.
pub proof fn lemma_boundary_bounded(p: Parameters, i: int)
    requires
        p.wf(),
        0 <= i < p.window_boundaries@.len(),
    ensures
        p.window_boundaries@[i] <= p.num_alleles,
{
    if i < p.num_windows {
        lemma_boundaries_strictly_increasing(p, i, p.num_windows as int);
    }
}

/// Reading word `w` back out of the encoding gives the word that was put in.
proof fn lemma_encoded_word_at(p: Parameters, w: int)
    requires
        p.wf(),
        0 <= w < p.num_windows + 4,
    ensures
        word_at(spec_encode(p), 4 * w) == encoded_word(p, w),
{
    if w >= 3 {
        lemma_boundary_bounded(p, w - 3);
    }
    assert(spec_encode(p)[4 * w] == le_byte(encoded_word(p, w), 0));
    assert(spec_encode(p)[4 * w + 1] == le_byte(encoded_word(p, w), 1));
    assert(spec_encode(p)[4 * w + 2] == le_byte(encoded_word(p, w), 2));
    assert(spec_encode(p)[4 * w + 3] == le_byte(encoded_word(p, w), 3));
    lemma_le_word_round_trip(encoded_word(p, w));
}

/// Writing a well-formed descriptor and reading the bytes back reproduces
/// the descriptor exactly.
pub proof fn lemma_parameters_round_trip(p: Parameters)
    requires
        p.wf(),
    ensures
        spec_parse(spec_encode(p)) == Some(p@),
{
    let e = spec_encode(p);
    lemma_encoded_word_at(p, 0);
    lemma_encoded_word_at(p, 1);
    lemma_encoded_word_at(p, 2);
    assert(word_at(e, 8) == p.num_windows + 1);
    assert forall|i: int|
        0 <= i < p.num_windows + 1 implies #[trigger] parsed_boundaries(e)[i]
        == p.window_boundaries@[i] by {
        lemma_encoded_word_at(p, 3 + i);
        assert(12 + 4 * i == 4 * (3 + i));
    }
    lemma_boundary_bounded(p, p.num_windows as int);
    assert(parse_ok(e));
    assert(p@.boundaries =~= parsed_boundaries(e));
}

/// Append the four little-endian bytes of the 32-bit word `v` to `out`.
fn push_le32(out: &mut Vec<u8>, v: usize)
    requires
        v <= 0x7fff_ffff,
    ensures
        final (out)@ == old(out)@ + seq![
            le_byte(v as int, 0),
            le_byte(v as int, 1),
            le_byte(v as int, 2),
            le_byte(v as int, 3),
        ],
{
    out.push((v % 256) as u8);
    out.push((v / 256 % 256) as u8);
    out.push((v / 65536 % 256) as u8);
    out.push((v / 16777216 % 256) as u8);
    assert(out@ =~= old(out)@ + seq![
        le_byte(v as int, 0),
        le_byte(v as int, 1),
        le_byte(v as int, 2),
        le_byte(v as int, 3),
    ]);
}

/// Read the 32-bit little-endian word starting at offset `i` of `b`.
fn read_le32(b: &Vec<u8>, i: usize) -> (v: u64)
    requires
        i + 4 <= b@.len() <= usize::MAX,
    ensures
        v == word_at(b@, i as int),
        v < 0x1_0000_0000,
{
    let b0 = b[i] as u64;
    let b1 = b[i + 1] as u64;
    let b2 = b[i + 2] as u64;
    let b3 = b[i + 3] as u64;
    b0 + 256 * b1 + 65536 * b2 + 16777216 * b3
}

impl Parameters {
    /// Serialize the descriptor into its fixed binary layout: the three
    /// header words followed by the boundary words, all 32-bit little-endian.
    pub fn encode(&self) -> (r: Vec<u8>)
        requires
            self.wf(),
        ensures
            r@ == spec_encode(*self),
    {
        let mut out: Vec<u8> = Vec::new();
        push_le32(&mut out, self.num_samples);
        push_le32(&mut out, self.num_alleles);
        push_le32(&mut out, self.num_windows + 1);
        assert(out@ =~= spec_encode(*self).take(12));
        let n = self.window_boundaries.len();
        let mut k: usize = 0;
        while k < n
            invariant
                self.wf(),
                n == self.window_boundaries@.len(),
                k <= n,
                out@ =~= spec_encode(*self).take(12 + 4 * k),
            decreases n - k,
        {
            let b = self.window_boundaries[k];
            proof {
                lemma_boundary_bounded(*self, k as int);
            }
            push_le32(&mut out, b);
            assert(out@ =~= spec_encode(*self).take(12 + 4 * (k + 1)));
            k = k + 1;
        }
        assert(out@ =~= spec_encode(*self));
        out
    }

    /// Parse a descriptor from its binary layout, validating the invariant
    /// as it reads: a result comes back exactly when the bytes hold a valid
    /// descriptor, and it is then the descriptor they hold.
    pub fn decode(bytes: &Vec<u8>) -> (r: Result<Parameters, PipelineError>)
        ensures
            match r {
                Ok(p) => p.wf() && spec_parse(bytes@) == Some(p@),
                Err(e) => spec_parse(bytes@) is None && e == PipelineError::MalformedParameters,
            },
    {
        if bytes.len() < 12 {
            return Err(PipelineError::MalformedParameters);
        }
        let num_samples = read_le32(bytes, 0);
        let num_alleles = read_le32(bytes, 4);
        let count = read_le32(bytes, 8);
        if num_samples < 1 || num_samples > 0x7fff_ffff {
            return Err(PipelineError::MalformedParameters);
        }
        if num_alleles > 0x7fff_ffff {
            return Err(PipelineError::MalformedParameters);
        }
        if count < 2 || count > 0x7fff_ffff {
            return Err(PipelineError::MalformedParameters);
        }
        let blen = bytes.len();
        if (blen as u64) < 12 + 4 * count {
            return Err(PipelineError::MalformedParameters);
        }
        let count = count as usize;
        let mut boundaries: Vec<usize> = Vec::new();
        let mut i: usize = 0;
        while i < count
            invariant
                parse_header_ok(bytes@),
                count == word_at(bytes@, 8),
                blen == bytes@.len(),
                12 + 4 * count <= blen,
                i <= count,
                boundaries@.len() == i,
                forall|j: int|
                    0 <= j < i ==> #[trigger] boundaries@[j] == parsed_boundaries(bytes@)[j],
                forall|j: int|
                    0 <= j < i - 1 ==> #[trigger] parsed_boundaries(bytes@)[j] < parsed_boundaries(
                        bytes@,
                    )[j + 1],
            decreases count - i,
        {
            proof {
                assert(16 + 4 * (i as int) <= blen as int);
            }
            let off = 12 + 4 * i;
            let v = read_le32(bytes, off);
            assert(v == parsed_boundaries(bytes@)[i as int]);
            if i > 0 && v <= (boundaries[i - 1] as u64) {
                assert(!(parsed_boundaries(bytes@)[i - 1] < parsed_boundaries(bytes@)[i as int]));
                return Err(PipelineError::MalformedParameters);
            }
            boundaries.push(v as usize);
            i = i + 1;
        }
        if boundaries[count - 1] as u64 > num_alleles {
            assert(!(parsed_boundaries(bytes@)[count - 1] <= word_at(bytes@, 4)));
            return Err(PipelineError::MalformedParameters);
        }
        let p = Parameters {
            num_samples: num_samples as usize,
            num_alleles: num_alleles as usize,
            num_windows: count - 1,
            window_boundaries: boundaries,
        };
        proof {
            assert forall|j: int| 0 <= j < p.num_windows implies #[trigger] p.window_boundaries@[j]
                < p.window_boundaries@[j + 1] by {
                assert(parsed_boundaries(bytes@)[j] < parsed_boundaries(bytes@)[j + 1]);
            }
            assert forall|j: int|
                0 <= j < p.window_boundaries@.len() implies #[trigger] p.window_boundaries@[j]
                <= p.num_alleles by {
                lemma_boundary_bounded(p, j);
            }
            assert(p@.boundaries =~= parsed_boundaries(bytes@));
        }
        Ok(p)
    }
}

} // verus!
