//! The bit-range engine over multi-word storage.
//!
//! A [`Storage`] is an ordered sequence of words of one width, treated as a
//! single little-endian bit string: bit `i` lives in word `i / word_bits` at
//! intra-word offset `i % word_bits`, word 0 holding the least-significant
//! bits.  The operations here generalize the per-word primitives of
//! [`crate::word`] to ranges that straddle word boundaries and to values that
//! decompose into several elements, invoking a word primitive once per
//! overlapping word.

use crate::lemmas::{
    lemma_bit_to_word, lemma_or_bit, lemma_shl_bit, lemma_shr_bit, lemma_word_to_bit,
    lemma_zero_bit,
};
use crate::model::{
    all_fit, elem_hi, elem_lo, fits, nth_bit, read_bit, reads_elems_to, reads_to, seq_bit,
    valid_range, word_read_bit, writes_elems_to, writes_to,
};
use crate::word;
use vstd::arithmetic::mul::{lemma_mul_inequality, lemma_mul_upper_bound};
use vstd::prelude::*;

verus! {

/// A storage value: words of a common width, least-significant word first,
/// addressed as one contiguous bit string.
pub struct Storage {
    /// The words; each holds its value in the low `word_bits` bits.
    pub words: Vec<u128>,
    /// The width of one word in bits, 1 to 128.
    pub word_bits: usize,
}

impl Storage {
    /// Well-formedness: a supported word width, and every word inside it.
    pub open spec fn wf(&self) -> bool {
        &&& 1 <= self.word_bits <= 128
        &&& all_fit(self.words@, self.word_bits as nat)
    }

    /// The word width as a mathematical number.
    pub open spec fn wbits(&self) -> nat {
        self.word_bits as nat
    }

    /// The total number of addressable bits.
    pub open spec fn total_bits(&self) -> nat {
        self.words@.len() * self.wbits()
    }

    /// Bit `i` of the storage.
    pub open spec fn sbit(&self, i: nat) -> bool {
        seq_bit(self.words@, self.wbits(), i)
    }

    /// Wraps words that already fit a supported width.
    pub fn new(words: Vec<u128>, word_bits: usize) -> (s: Storage)
        requires
            1 <= word_bits <= 128,
            all_fit(words@, word_bits as nat),
        ensures
            s.wf(),
            s.words@ == words@,
            s.word_bits == word_bits,
    {
        Storage { words, word_bits }
    }

    /// Wraps a single word: scalar storage.
    pub fn from_word(word: u128, word_bits: usize) -> (s: Storage)
        requires
            1 <= word_bits <= 128,
            fits(word, word_bits as nat),
        ensures
            s.wf(),
            s.words@ =~= seq![word],
            s.word_bits == word_bits,
    {
        let mut words: Vec<u128> = Vec::new();
        words.push(word);
        Storage { words, word_bits }
    }

    /// Checks and wraps: `Some` exactly when the width is supported and every
    /// word fits inside it.
    pub fn try_new(words: Vec<u128>, word_bits: usize) -> (r: Option<Storage>)
        ensures
            r is Some <==> (1 <= word_bits <= 128 && all_fit(words@, word_bits as nat)),
            r matches Some(s) ==> s.wf() && s.words@ == words@ && s.word_bits == word_bits,
    {
        if word_bits < 1 || word_bits > 128 {
            return None;
        }
        if word_bits < 128 {
            let mut k: usize = 0;
            while k < words.len()
                invariant
                    k <= words.len(),
                    1 <= word_bits < 128,
                    forall|j: int| 0 <= j < k ==> fits(#[trigger] words@[j], word_bits as nat),
                decreases words.len() - k,
            {
                if words[k] >> (word_bits as u128) != 0 {
                    return None;
                }
                k += 1;
            }
        }
        Some(Storage { words, word_bits })
    }

    /// Reads the single bit `at`.
    pub fn bit(&self, at: usize) -> (b: bool)
        requires
            self.wf(),
            (at as nat) < self.total_bits(),
        ensures
            b == self.sbit(at as nat),
    {
        proof {
            lemma_bit_to_word(self.words@, self.wbits(), at as nat);
        }
        let w = self.word_bits;
        let k = at / w;
        let off = at % w;
        word::bit(self.words[k], w, off)
    }

    /// Sets the single bit `at` to `value` in place, leaving every other bit
    /// unchanged.
    pub fn set_bit(&mut self, at: usize, value: bool)
        requires
            old(self).wf(),
            (at as nat) < old(self).total_bits(),
        ensures
            final(self).wf(),
            final(self).word_bits == old(self).word_bits,
            final(self).words@.len() == old(self).words@.len(),
            forall|p: nat|
                p < old(self).total_bits() ==> #[trigger] final(self).sbit(p) == if p == at as nat {
                    value
                } else {
                    old(self).sbit(p)
                },
    {
        let ghost s0 = self.words@;
        let ghost wn = self.wbits();
        proof {
            lemma_bit_to_word(s0, wn, at as nat);
        }
        let w = self.word_bits;
        let k = at / w;
        let off = at % w;
        let nw = word::with_bit(self.words[k], w, off, value);
        self.words.set(k, nw);
        proof {
            assert forall|p: nat| p < s0.len() * wn implies #[trigger] seq_bit(self.words@, wn, p)
                == if p == at as nat {
                value
            } else {
                seq_bit(s0, wn, p)
            } by {
                lemma_bit_to_word(s0, wn, p);
                lemma_bit_to_word(self.words@, wn, p);
            }
            assert forall|j: int| 0 <= j < self.words@.len() implies fits(
                #[trigger] self.words@[j],
                wn,
            ) by {}
        }
    }

    /// Returns the storage with the single bit `at` set to `value`.
    pub fn with_bit(self, at: usize, value: bool) -> (r: Storage)
        requires
            self.wf(),
            (at as nat) < self.total_bits(),
        ensures
            r.wf(),
            r.word_bits == self.word_bits,
            r.words@.len() == self.words@.len(),
            forall|p: nat|
                p < self.total_bits() ==> #[trigger] r.sbit(p) == if p == at as nat {
                    value
                } else {
                    self.sbit(p)
                },
    {
        let mut s = self;
        s.set_bit(at, value);
        s
    }

    /// Reads the bit range `[start, end)` as a `value_bits`-wide value,
    /// sign-extended when `signed` and zero-extended otherwise; an empty
    /// range reads as zero.
    ///
    /// Iterates once over each overlapping word, accumulating the zero-extended
    /// word slices, then extends the selected bits as a whole, so that the
    /// extension reflects the full range rather than any single word.
    pub fn bits(&self, start: usize, end: usize, value_bits: usize, signed: bool) -> (r: u128)
        requires
            self.wf(),
            1 <= value_bits <= 128,
            start < end ==> end as nat <= self.total_bits() && end - start <= value_bits,
        ensures
            reads_to(
                self.words@,
                self.wbits(),
                start as nat,
                end as nat,
                value_bits as nat,
                signed,
                r,
            ),
            fits(r, value_bits as nat),
    {
        let ghost s = self.words@;
        let ghost wn = self.wbits();
        if start >= end {
            proof {
                assert forall|i: u128| i < 128 implies #[trigger] nth_bit(0u128, i) == read_bit(
                    s,
                    wn,
                    start as nat,
                    end as nat,
                    value_bits as nat,
                    signed,
                    i,
                ) by {
                    lemma_zero_bit(i);
                }
                assert(fits(0u128, value_bits as nat)) by (bit_vector);
            }
            return 0;
        }
        let w = self.word_bits;
        let sel = end - start;
        proof {
            lemma_bit_to_word(s, wn, start as nat);
        }
        let mut k: usize = start / w;
        let off0 = start % w;
        let mut kw: u128 = (start - off0) as u128;
        let mut acc: u128 = 0;
        proof {
            assert forall|i: u128| i < 128 implies !nth_bit(acc, i) by {
                lemma_zero_bit(i);
            }
        }
        while kw < end as u128
            invariant
                self.wf(),
                w == self.word_bits,
                wn == w as nat,
                s == self.words@,
                start < end,
                end as nat <= s.len() * wn,
                sel == end - start,
                sel <= value_bits <= 128,
                (k as nat) * wn == kw as nat,
                (k as nat) <= s.len(),
                (start as nat) < kw as nat + wn,
                forall|i: u128|
                    i < 128 ==> #[trigger] nth_bit(acc, i) == ((i as nat) < sel && start as nat
                        + (i as nat) < kw as nat && seq_bit(s, wn, (start + i) as nat)),
            decreases s.len() - k as nat,
        {
            let n = self.words.len();
            proof {
                if k >= s.len() {
                    lemma_mul_inequality(s.len() as int, k as int, wn as int);
                }
                assert(k < n);
                assert(((k + 1) as nat) * wn == (k as nat) * wn + wn) by (nonlinear_arith);
            }
            let kwu = kw as usize;
            let clip_start = if start > kwu {
                start
            } else {
                kwu
            };
            let nxt: u128 = kw + w as u128;
            let clip_end = if nxt < end as u128 {
                nxt as usize
            } else {
                end
            };
            let off = clip_start - kwu;
            let wend = clip_end - kwu;
            let shift = clip_start - start;
            let piece = word::bit_range(self.words[k], w, off, wend, w, false);
            let ghost accp = acc;
            acc = acc | (piece << (shift as u128));
            proof {
                assert forall|i: u128| i < 128 implies #[trigger] nth_bit(acc, i) == ((i as nat)
                    < sel && start as nat + (i as nat) < nxt as nat && seq_bit(
                    s,
                    wn,
                    (start + i) as nat,
                )) by {
                    lemma_or_bit(accp, piece << (shift as u128), i);
                    lemma_shl_bit(piece, shift as u128, i);
                    if i >= shift as u128 {
                        let wb = (i - shift) as u128;
                        assert(nth_bit(piece, wb) == word_read_bit(
                            self.words@[k as int],
                            off as nat,
                            wend as nat,
                            w as nat,
                            false,
                            wb,
                        ));
                        if (wb as nat) < wend - off {
                            lemma_word_to_bit(s, wn, k as nat, (off + wb) as nat);
                        }
                    }
                }
            }
            k = k + 1;
            kw = nxt;
        }
        let r = word::extend(acc, sel, value_bits, signed);
        proof {
            assert forall|i: u128| i < 128 implies #[trigger] nth_bit(r, i) == read_bit(
                s,
                wn,
                start as nat,
                end as nat,
                value_bits as nat,
                signed,
                i,
            ) by {
                assert(nth_bit(acc, i) == ((i as nat) < sel && start as nat + (i as nat)
                    < kw as nat && seq_bit(s, wn, (start + i) as nat)));
                assert(nth_bit(acc, (sel - 1) as u128) == seq_bit(s, wn, (end - 1) as nat));
            }
        }
        r
    }

    /// Writes the low `end - start` bits of `value` into the bit range
    /// `[start, end)` in place, leaving every other bit unchanged; an empty
    /// range writes nothing.
    ///
    /// Iterates once over each overlapping word, splicing the matching slice
    /// of `value` into the sub-range clipped to that word.
    pub fn set_bits(&mut self, start: usize, end: usize, value: u128, value_bits: usize)
        requires
            old(self).wf(),
            1 <= value_bits <= 128,
            fits(value, value_bits as nat),
            start < end ==> end as nat <= old(self).total_bits() && end - start <= value_bits,
        ensures
            final(self).wf(),
            final(self).word_bits == old(self).word_bits,
            writes_to(
                old(self).words@,
                old(self).wbits(),
                start as nat,
                end as nat,
                value,
                final(self).words@,
            ),
            start >= end ==> *final(self) == *old(self),
    {
        if start >= end {
            return ;
        }
        let ghost s0 = self.words@;
        let ghost wn = self.wbits();
        let w = self.word_bits;
        proof {
            lemma_bit_to_word(s0, wn, start as nat);
        }
        let mut k: usize = start / w;
        let off0 = start % w;
        let mut kw: u128 = (start - off0) as u128;
        while kw < end as u128
            invariant
                self.wf(),
                w == self.word_bits,
                wn == w as nat,
                self.words@.len() == s0.len(),
                start < end,
                end as nat <= s0.len() * wn,
                end - start <= 128,
                (k as nat) * wn == kw as nat,
                (k as nat) <= s0.len(),
                (start as nat) < kw as nat + wn,
                forall|p: nat|
                    p < s0.len() * wn ==> #[trigger] seq_bit(self.words@, wn, p) == if start as nat
                        <= p && p < kw as nat && p < end as nat {
                        nth_bit(value, (p - start) as u128)
                    } else {
                        seq_bit(s0, wn, p)
                    },
            decreases s0.len() - k as nat,
        {
            let n = self.words.len();
            proof {
                if k >= s0.len() {
                    lemma_mul_inequality(s0.len() as int, k as int, wn as int);
                }
                assert(k < n);
                assert(((k + 1) as nat) * wn == (k as nat) * wn + wn) by (nonlinear_arith);
            }
            let kwu = kw as usize;
            let clip_start = if start > kwu {
                start
            } else {
                kwu
            };
            let nxt: u128 = kw + w as u128;
            let clip_end = if nxt < end as u128 {
                nxt as usize
            } else {
                end
            };
            let off = clip_start - kwu;
            let wend = clip_end - kwu;
            let shift = clip_start - start;
            let piece = value >> (shift as u128);
            let ghost prev = self.words@;
            let nw = word::with_bit_range(self.words[k], w, off, wend, piece);
            self.words.set(k, nw);
            proof {
                assert forall|p: nat| p < s0.len() * wn implies #[trigger] seq_bit(
                    self.words@,
                    wn,
                    p,
                ) == if start as nat <= p && p < nxt as nat && p < end as nat {
                    nth_bit(value, (p - start) as u128)
                } else {
                    seq_bit(s0, wn, p)
                } by {
                    lemma_bit_to_word(prev, wn, p);
                    lemma_bit_to_word(self.words@, wn, p);
                    let j = p / wn;
                    if j == k as nat {
                        let b = (p - kw as nat) as u128;
                        assert(nth_bit(nw, b) == if off as u128 <= b < wend as u128 && off < wend {
                            nth_bit(piece, (b - off as u128) as u128)
                        } else {
                            nth_bit(prev[k as int], b)
                        });
                        if off as u128 <= b && b < wend as u128 {
                            lemma_shr_bit(value, shift as u128, (b - off as u128) as u128);
                        }
                    } else if j < k as nat {
                        lemma_mul_inequality(j as int + 1, k as int, wn as int);
                        assert((j + 1) * wn == j * wn + wn) by (nonlinear_arith);
                    } else {
                        lemma_mul_inequality(k as int + 1, j as int, wn as int);
                    }
                }
                assert forall|j: int| 0 <= j < self.words@.len() implies fits(
                    #[trigger] self.words@[j],
                    wn,
                ) by {}
            }
            k = k + 1;
            kw = nxt;
        }
    }

    /// Returns the storage with the low `end - start` bits of `value` written
    /// into the bit range `[start, end)` and every other bit unchanged.
    pub fn with_bits(self, start: usize, end: usize, value: u128, value_bits: usize) -> (r: Storage)
        requires
            self.wf(),
            1 <= value_bits <= 128,
            fits(value, value_bits as nat),
            start < end ==> end as nat <= self.total_bits() && end - start <= value_bits,
        ensures
            r.wf(),
            r.word_bits == self.word_bits,
            writes_to(self.words@, self.wbits(), start as nat, end as nat, value, r.words@),
            start >= end ==> r == self,
    {
        let mut s = self;
        s.set_bits(start, end, value, value_bits);
        s
    }

    /// Reads the bit range `[start, end)` as `out_len` elements of
    /// `value_bits` bits each, least-significant element first.  Element `k`
    /// covers the sub-range `[start + k*value_bits, min(end, start +
    /// (k+1)*value_bits))` and is sign- or zero-extended on its own; elements
    /// past the selected bits are zero.
    pub fn bits_array(
        &self,
        start: usize,
        end: usize,
        value_bits: usize,
        signed: bool,
        out_len: usize,
    ) -> (out: Vec<u128>)
        requires
            self.wf(),
            1 <= value_bits <= 128,
            start < end ==> end as nat <= self.total_bits() && (end - start) as nat <= (
            out_len as nat) * (value_bits as nat),
        ensures
            out@.len() == out_len,
            reads_elems_to(
                self.words@,
                self.wbits(),
                start as nat,
                end as nat,
                value_bits as nat,
                signed,
                out@,
            ),
            all_fit(out@, value_bits as nat),
    {
        let ghost s = self.words@;
        let ghost wn = self.wbits();
        let vb = value_bits;
        let mut out: Vec<u128> = Vec::new();
        while out.len() < out_len
            invariant
                out@.len() <= out_len,
                forall|j: int| 0 <= j < out@.len() ==> out@[j] == 0u128,
            decreases out_len - out@.len(),
        {
            out.push(0);
        }
        proof {
            assert(fits(0u128, vb as nat)) by (bit_vector);
        }
        if start >= end {
            proof {
                assert forall|k: nat, i: u128| k < out@.len() && i < 128 implies #[trigger] nth_bit(
                    out@[k as int],
                    i,
                ) == read_bit(
                    s,
                    wn,
                    elem_lo(start as nat, vb as nat, k),
                    elem_hi(start as nat, end as nat, vb as nat, k),
                    vb as nat,
                    signed,
                    i,
                ) by {
                    lemma_zero_bit(i);
                }
            }
            return out;
        }
        let mut kk: usize = 0;
        let mut klo: u128 = start as u128;
        while klo < end as u128
            invariant
                self.wf(),
                wn == self.word_bits as nat,
                s == self.words@,
                1 <= vb <= 128,
                start < end,
                end as nat <= s.len() * wn,
                (end - start) as nat <= (out_len as nat) * (vb as nat),
                out@.len() == out_len,
                klo as nat == start as nat + (kk as nat) * (vb as nat),
                forall|k: nat, i: u128|
                    k < kk as nat && i < 128 ==> #[trigger] nth_bit(out@[k as int], i) == read_bit(
                        s,
                        wn,
                        elem_lo(start as nat, vb as nat, k),
                        elem_hi(start as nat, end as nat, vb as nat, k),
                        vb as nat,
                        signed,
                        i,
                    ),
                forall|j: int| kk <= j < out@.len() ==> out@[j] == 0u128,
                all_fit(out@, vb as nat),
            decreases out_len - kk as nat,
        {
            proof {
                if kk >= out_len {
                    lemma_mul_inequality(out_len as int, kk as int, vb as int);
                }
                assert(kk < out_len);
                assert(((kk + 1) as nat) * (vb as nat) == (kk as nat) * (vb as nat)
                    + vb as nat) by (nonlinear_arith);
            }
            let lo = klo as usize;
            let nxt: u128 = klo + vb as u128;
            let hi = if nxt < end as u128 {
                nxt as usize
            } else {
                end
            };
            let v = self.bits(lo, hi, vb, signed);
            out.set(kk, v);
            kk += 1;
            klo = nxt;
        }
        proof {
            assert forall|k: nat, i: u128| k < out@.len() && i < 128 implies #[trigger] nth_bit(
                out@[k as int],
                i,
            ) == read_bit(
                s,
                wn,
                elem_lo(start as nat, vb as nat, k),
                elem_hi(start as nat, end as nat, vb as nat, k),
                vb as nat,
                signed,
                i,
            ) by {
                if k >= kk as nat {
                    lemma_zero_bit(i);
                    lemma_mul_inequality(kk as int, k as int, vb as int);
                }
            }
        }
        out
    }

    /// Writes the elements of `values`, `value_bits` bits each, into the bit
    /// range `[start, end)` in place, leaving every other bit unchanged; bits
    /// of the last element beyond `end` are ignored, and an empty range
    /// writes nothing.
    pub fn set_bits_array(&mut self, start: usize, end: usize, values: &Vec<u128>, value_bits: usize)
        requires
            old(self).wf(),
            1 <= value_bits <= 128,
            all_fit(values@, value_bits as nat),
            start < end ==> end as nat <= old(self).total_bits() && (end - start) as nat
                <= values@.len() * (value_bits as nat),
        ensures
            final(self).wf(),
            final(self).word_bits == old(self).word_bits,
            writes_elems_to(
                old(self).words@,
                old(self).wbits(),
                start as nat,
                end as nat,
                values@,
                value_bits as nat,
                final(self).words@,
            ),
            start >= end ==> *final(self) == *old(self),
    {
        if start >= end {
            return ;
        }
        let ghost s0 = self.words@;
        let ghost wn = self.wbits();
        let vb = value_bits;
        let mut kk: usize = 0;
        let mut klo: u128 = start as u128;
        while klo < end as u128
            invariant
                self.wf(),
                wn == self.word_bits as nat,
                self.words@.len() == s0.len(),
                1 <= vb <= 128,
                all_fit(values@, vb as nat),
                start < end,
                end as nat <= s0.len() * wn,
                (end - start) as nat <= values@.len() * (vb as nat),
                klo as nat == start as nat + (kk as nat) * (vb as nat),
                forall|p: nat|
                    p < s0.len() * wn ==> #[trigger] seq_bit(self.words@, wn, p) == if start as nat
                        <= p && p < klo as nat && p < end as nat {
                        seq_bit(values@, vb as nat, (p - start) as nat)
                    } else {
                        seq_bit(s0, wn, p)
                    },
            decreases values@.len() - kk as nat,
        {
            let n = values.len();
            proof {
                if kk as nat >= values@.len() {
                    lemma_mul_inequality(values@.len() as int, kk as int, vb as int);
                }
                assert(kk < n);
                assert(((kk + 1) as nat) * (vb as nat) == (kk as nat) * (vb as nat)
                    + vb as nat) by (nonlinear_arith);
            }
            let lo = klo as usize;
            let nxt: u128 = klo + vb as u128;
            let hi = if nxt < end as u128 {
                nxt as usize
            } else {
                end
            };
            let ghost prev = self.words@;
            let v = values[kk];
            self.set_bits(lo, hi, v, vb);
            proof {
                assert forall|p: nat| p < s0.len() * wn implies #[trigger] seq_bit(
                    self.words@,
                    wn,
                    p,
                ) == if start as nat <= p && p < nxt as nat && p < end as nat {
                    seq_bit(values@, vb as nat, (p - start) as nat)
                } else {
                    seq_bit(s0, wn, p)
                } by {
                    if lo as nat <= p && p < hi as nat {
                        lemma_word_to_bit(values@, vb as nat, kk as nat, (p - lo) as nat);
                    }
                }
            }
            kk += 1;
            klo = nxt;
        }
    }

    /// Returns the storage with the elements of `values`, `value_bits` bits
    /// each, written into the bit range `[start, end)` and every other bit
    /// unchanged.
    pub fn with_bits_array(
        self,
        start: usize,
        end: usize,
        values: &Vec<u128>,
        value_bits: usize,
    ) -> (r: Storage)
        requires
            self.wf(),
            1 <= value_bits <= 128,
            all_fit(values@, value_bits as nat),
            start < end ==> end as nat <= self.total_bits() && (end - start) as nat
                <= values@.len() * (value_bits as nat),
        ensures
            r.wf(),
            r.word_bits == self.word_bits,
            writes_elems_to(
                self.words@,
                self.wbits(),
                start as nat,
                end as nat,
                values@,
                value_bits as nat,
                r.words@,
            ),
            start >= end ==> r == self,
    {
        let mut s = self;
        s.set_bits_array(start, end, values, value_bits);
        s
    }

    /// The run-time form of range validation: the range must be ordered,
    /// start inside the storage, end within it, and select no more bits than
    /// a `value_bits`-wide value can hold.
    pub fn range_ok(&self, start: usize, end: usize, value_bits: usize) -> (ok: bool)
        requires
            self.wf(),
        ensures
            ok == valid_range(start as nat, end as nat, self.total_bits(), value_bits as nat),
    {
        let n = self.words.len();
        proof {
            lemma_mul_upper_bound(n as int, 0xffff_ffff_ffff_ffff, self.word_bits as int, 128);
        }
        let total: u128 = (n as u128) * (self.word_bits as u128);
        end > start && (start as u128) < total && (end as u128) <= total && end - start
            <= value_bits
    }

    /// Reads `[start, end)` as a `value_bits`-wide value after validating the
    /// range: `Some` exactly when the range passes validation.
    pub fn try_bits(&self, start: usize, end: usize, value_bits: usize, signed: bool) -> (r: Option<u128>)
        requires
            self.wf(),
            1 <= value_bits <= 128,
        ensures
            r is Some <==> valid_range(
                start as nat,
                end as nat,
                self.total_bits(),
                value_bits as nat,
            ),
            r matches Some(v) ==> reads_to(
                self.words@,
                self.wbits(),
                start as nat,
                end as nat,
                value_bits as nat,
                signed,
                v,
            ) && fits(v, value_bits as nat),
    {
        if self.range_ok(start, end, value_bits) {
            Some(self.bits(start, end, value_bits, signed))
        } else {
            None
        }
    }

    /// Writes `value` into `[start, end)` after validating the range: writes
    /// and returns `true` exactly when the range passes validation, and
    /// leaves the storage untouched otherwise.
    pub fn try_set_bits(&mut self, start: usize, end: usize, value: u128, value_bits: usize) -> (ok: bool)
        requires
            old(self).wf(),
            1 <= value_bits <= 128,
            fits(value, value_bits as nat),
        ensures
            ok == valid_range(start as nat, end as nat, old(self).total_bits(), value_bits as nat),
            final(self).wf(),
            final(self).word_bits == old(self).word_bits,
            ok ==> writes_to(
                old(self).words@,
                old(self).wbits(),
                start as nat,
                end as nat,
                value,
                final(self).words@,
            ),
            !ok ==> *final(self) == *old(self),
    {
        if self.range_ok(start, end, value_bits) {
            self.set_bits(start, end, value, value_bits);
            true
        } else {
            false
        }
    }

    /// Begins an explicit read-modify-write of the bit range `[start, end)`:
    /// returns the range decoded as a scalar storage of one `child_bits`-bit
    /// word, to be edited and written back with [`Storage::commit_nested`].
    pub fn read_nested(&self, start: usize, end: usize, child_bits: usize) -> (child: Storage)
        requires
            self.wf(),
            1 <= child_bits <= 128,
            start < end ==> end as nat <= self.total_bits() && end - start <= child_bits,
        ensures
            child.wf(),
            child.word_bits == child_bits,
            child.words@.len() == 1,
            reads_to(
                self.words@,
                self.wbits(),
                start as nat,
                end as nat,
                child_bits as nat,
                false,
                child.words@[0],
            ),
    {
        let v = self.bits(start, end, child_bits, false);
        Storage::from_word(v, child_bits)
    }

    /// Writes an edited nested value back into the bit range `[start, end)`:
    /// the commit of the read-modify-write pattern.  Calling it on every exit
    /// path is what guarantees the write-back.
    pub fn commit_nested(&mut self, start: usize, end: usize, child: &Storage)
        requires
            old(self).wf(),
            child.wf(),
            child.words@.len() == 1,
            start < end ==> end as nat <= old(self).total_bits() && (end - start) as nat
                <= child.wbits(),
        ensures
            final(self).wf(),
            final(self).word_bits == old(self).word_bits,
            writes_to(
                old(self).words@,
                old(self).wbits(),
                start as nat,
                end as nat,
                child.words@[0],
                final(self).words@,
            ),
    {
        self.set_bits(start, end, child.words[0], child.word_bits);
    }
}

} // verus!
