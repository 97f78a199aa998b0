//! HF/VHF radio frames and their codec translation.
//!
//! A frame is `[frequency in kHz (4)][modulation (1)][samples]`; samples are 16
//! bit PCM, least significant byte first.

use crate::double::{
    divide,
    divide_floor,
    double_floor,
    lemma_ratio_of_one,
    lemma_scaled_integers_are_doubles,
    lemma_whole_quotients_are_doubles,
    scale_up,
    significand,
    small_integers_are_doubles,
};
use crate::wire::{be_bytes, be_value, lemma_be_value_of_bytes, lemma_pow256, push_be, read_u32};
use vstd::arithmetic::div_mod::{lemma_fundamental_div_mod, lemma_mod_bound};
use vstd::prelude::*;

verus! {

#[derive(Debug, Clone, Copy, PartialEq, Eq, Structural)]
pub enum ModulationType {
    AM,
    FM,
    SSB,
    CW,
}

#[derive(Debug)]
pub struct HFVHFMessage {
    pub frequency_khz: u32,
    pub modulation: ModulationType,
    /// PCM audio samples.
    pub audio_samples: Vec<i16>,
}

/// The byte that stands for each modulation.
pub open spec fn modulation_code(m: ModulationType) -> u8 {
    match m {
        ModulationType::AM => 0,
        ModulationType::FM => 1,
        ModulationType::SSB => 2,
        ModulationType::CW => 3,
    }
}

/// The modulation that a byte stands for, if any.
pub open spec fn modulation_of(b: u8) -> Option<ModulationType> {
    if b == 0 {
        Some(ModulationType::AM)
    } else if b == 1 {
        Some(ModulationType::FM)
    } else if b == 2 {
        Some(ModulationType::SSB)
    } else if b == 3 {
        Some(ModulationType::CW)
    } else {
        None
    }
}

/// The sample that two bytes stand for.
pub open spec fn sample_of(lo: u8, hi: u8) -> int {
    let w = hi * 256 + lo;
    if w < 0x8000 {
        w
    } else {
        w - 0x1_0000
    }
}

/// The sample as an unsigned 16 bit word.
pub open spec fn sample_word(s: i16) -> nat {
    if s >= 0 {
        s as nat
    } else {
        (s + 0x1_0000) as nat
    }
}

/// The samples of a byte string; an odd last byte is not one.
pub open spec fn samples_of(data: Seq<u8>) -> Seq<i16> {
    Seq::new(data.len() / 2, |i: int| sample_of(data[2 * i], data[2 * i + 1]) as i16)
}

/// The bytes of a list of samples.
pub open spec fn sample_bytes(samples: Seq<i16>) -> Seq<u8> {
    Seq::new(
        samples.len() * 2,
        |j: int|
            if j % 2 == 0 {
                (sample_word(samples[j / 2]) % 256) as u8
            } else {
                (sample_word(samples[j / 2]) / 256) as u8
            },
    )
}

/// The bytes of a frame.
pub open spec fn hfvhf_frame(frequency_khz: u32, m: ModulationType, samples: Seq<i16>) -> Seq<u8> {
    be_bytes(frequency_khz as nat, 4) + seq![modulation_code(m)] + sample_bytes(samples)
}

/// Whether a byte string is a frame.
pub open spec fn parses(data: Seq<u8>) -> bool {
    data.len() >= 8 && modulation_of(data[4]) is Some
}

/// How many samples a recording has at another rate: the integer part of its length
/// times the ratio of the rates, in doubles. The ratio of two rates is below 2^53, so it is
/// the significand of its double divided by a power of two; dividing by that rounds
/// nothing.
pub open spec fn resampled_len(len: nat, target_rate: u32, original_rate: u32) -> nat {
    if original_rate == 0 || target_rate == 0 {
        0
    } else {
        let m = significand(target_rate as nat, original_rate as nat);
        let p = scale_up(target_rate as nat, original_rate as nat);
        double_floor(double_floor(len, 1) * m, 1) / p
    }
}

/// The old sample that was playing at the time of a new one: the integer part of the
/// new one's position divided by the ratio of the rates, in doubles.
pub open spec fn source_of(i: nat, target_rate: u32, original_rate: u32) -> nat {
    let m = significand(target_rate as nat, original_rate as nat);
    let p = scale_up(target_rate as nat, original_rate as nat);
    double_floor(double_floor(i, 1) * p, m)
}

/// The first `n` samples of the recording at another rate: each repeats the old one
/// that was playing at its time. Where rounding puts that behind the end, the new one
/// is left out.
pub open spec fn resampled_upto(
    s: Seq<i16>,
    target_rate: u32,
    original_rate: u32,
    n: nat,
) -> Seq<i16>
    decreases n,
{
    if n == 0 {
        Seq::empty()
    } else {
        let before = resampled_upto(s, target_rate, original_rate, (n - 1) as nat);
        let k = source_of((n - 1) as nat, target_rate, original_rate);
        if k < s.len() {
            before.push(s[k as int])
        } else {
            before
        }
    }
}

/// The recording at another rate.
pub open spec fn resampled(s: Seq<i16>, target_rate: u32, original_rate: u32) -> Seq<i16> {
    resampled_upto(
        s,
        target_rate,
        original_rate,
        resampled_len(s.len(), target_rate, original_rate),
    )
}

/// Whether a message says what a frame says.
pub open spec fn says(m: HFVHFMessage, data: Seq<u8>) -> bool {
    &&& m.frequency_khz == be_value(data.subrange(0, 4))
    &&& modulation_of(data[4]) == Some(m.modulation)
    &&& m.audio_samples@ == samples_of(data.skip(5))
}

fn sample_from(lo: u8, hi: u8) -> (r: i16)
    ensures
        r == sample_of(lo, hi),
{
    let w: u16 = hi as u16 * 256 + lo as u16;
    assert(w < 0x8000 ==> (w as i16) == w) by (bit_vector);
    assert(w >= 0x8000 ==> (w as i16) == w - 0x1_0000) by (bit_vector);
    w as i16
}

impl Clone for HFVHFMessage {
    fn clone(&self) -> (r: Self)
        ensures
            r.frequency_khz == self.frequency_khz,
            r.modulation == self.modulation,
            r.audio_samples@ == self.audio_samples@,
    {
        HFVHFMessage {
            frequency_khz: self.frequency_khz,
            modulation: self.modulation,
            audio_samples: self.audio_samples.clone(),
        }
    }
}

impl HFVHFMessage {
    /// Reads a frame. `None` if it is shorter than 8 bytes or its modulation is
    /// unknown.
    pub fn parse(data: &[u8]) -> (r: Option<Self>)
        ensures
            r is Some <==> parses(data@),
            r matches Some(m) ==> {
                &&& says(m, data@)
                &&& m.frequency_khz == be_value(data@.subrange(0, 4))
                &&& modulation_of(data@[4]) == Some(m.modulation)
                &&& m.audio_samples@ == samples_of(data@.skip(5))
            },
    {
        if data.len() < 8 {
            return None;
        }
        let frequency_khz = read_u32(data, 0);
        let modulation = match data[4] {
            0 => ModulationType::AM,
            1 => ModulationType::FM,
            2 => ModulationType::SSB,
            3 => ModulationType::CW,
            _ => return None,
        };
        let ghost body = data@.skip(5);
        let mut audio_samples: Vec<i16> = Vec::new();
        let mut i: usize = 5;
        let n: usize = data.len();
        while n - i >= 2
            invariant
                5 <= i <= n == data@.len(),
                body == data@.skip(5),
                i == 5 + 2 * audio_samples@.len(),
                forall|k: int|
                    0 <= k < audio_samples@.len() ==> #[trigger] audio_samples@[k]
                        == samples_of(body)[k],
            decreases n - i,
        {
            let ghost k = audio_samples@.len() as int;
            audio_samples.push(sample_from(data[i], data[i + 1]));
            assert(body[2 * k] == data@[i as int] && body[2 * k + 1] == data@[i + 1]);
            i = i + 2;
        }
        assert(audio_samples@ =~= samples_of(body));
        Some(HFVHFMessage { frequency_khz, modulation, audio_samples })
    }

    /// The frame of this message.
    pub fn encode(&self) -> (r: Vec<u8>)
        ensures
            r@ == hfvhf_frame(self.frequency_khz, self.modulation, self.audio_samples@),
    {
        let mut buffer: Vec<u8> = Vec::new();
        push_be(&mut buffer, self.frequency_khz as u64, 4);
        let code: u8 = match self.modulation {
            ModulationType::AM => 0,
            ModulationType::FM => 1,
            ModulationType::SSB => 2,
            ModulationType::CW => 3,
        };
        buffer.push(code);
        let ghost head = buffer@;
        assert(head =~= be_bytes(self.frequency_khz as nat, 4) + seq![modulation_code(
            self.modulation,
        )]);
        let ghost all = sample_bytes(self.audio_samples@);
        let mut i: usize = 0;
        while i < self.audio_samples.len()
            invariant
                i <= self.audio_samples@.len(),
                all == sample_bytes(self.audio_samples@),
                buffer@ == head + all.subrange(0, 2 * i),
            decreases self.audio_samples@.len() - i,
        {
            let s: i16 = self.audio_samples[i];
            assert(s >= 0 ==> (s as u16) == s) by (bit_vector);
            assert(s < 0 ==> (s as u16) == s + 0x1_0000) by (bit_vector);
            let w: u16 = s as u16;
            buffer.push((w % 256) as u8);
            buffer.push((w / 256) as u8);
            proof {
                assert((2 * i) / 2 == i && (2 * i + 1) / 2 == i);
                assert(buffer@ =~= head + all.subrange(0, 2 * (i + 1)));
            }
            i = i + 1;
        }
        assert(all.subrange(0, 2 * i) =~= all);
        buffer
    }

    /// The audio as the digital network carries it: the PCM frame itself.
    pub fn codec_translate_to_digital(&self) -> (r: Vec<u8>)
        ensures
            r@ == hfvhf_frame(self.frequency_khz, self.modulation, self.audio_samples@),
    {
        self.encode()
    }

    /// The same recording at another sample rate.
    pub fn resample(&self, target_rate: u32, original_rate: u32) -> (r: Self)
        requires
            original_rate == 0 ==> target_rate == 0 || self.audio_samples@.len() == 0,
            2 * resampled_len(self.audio_samples@.len(), target_rate, original_rate)
                <= isize::MAX,
        ensures
            r.frequency_khz == self.frequency_khz,
            r.modulation == self.modulation,
            r.audio_samples@ == resampled(self.audio_samples@, target_rate, original_rate),
    {
        let n: usize = self.audio_samples.len();
        let ghost s = self.audio_samples@;
        let mut new_samples: Vec<i16> = Vec::new();
        if original_rate > 0 && target_rate > 0 {
            let ratio = divide(target_rate as u128, original_rate as u128);
            let m: u128 = ratio.significand;
            let p: u128 = ratio.up;
            let len: u128 = divide_floor(n as u128, 1);
            assert(len * m <= 0x2_0000_0000_0000_0000 * 0x20_0000_0000_0000) by (nonlinear_arith)
                requires
                    0 <= len <= 0x2_0000_0000_0000_0000,
                    0 <= m <= 0x20_0000_0000_0000,
            ;
            let whole: u128 = divide_floor(len * m, 1);
            let new_len: u128 = whole / p;
            assert(new_len * p <= whole) by {
                lemma_fundamental_div_mod(whole as int, p as int);
                lemma_mod_bound(whole as int, p as int);
                assert(p * (whole as int / p as int) == new_len * p) by (nonlinear_arith)
                    requires
                        new_len == whole as int / p as int,
                ;
            }
            let mut i: u128 = 0;
            while i < new_len
                invariant
                    i <= new_len,
                    new_len * p <= whole,
                    whole <= 0x80_0000_0000_0000_0000_0000_0000_0000,
                    2 * new_len <= isize::MAX,
                    n == s.len(),
                    s == self.audio_samples@,
                    original_rate > 0,
                    target_rate > 0,
                    m == significand(target_rate as nat, original_rate as nat),
                    p == scale_up(target_rate as nat, original_rate as nat),
                    0 < m <= 0x20_0000_0000_0000,
                    new_samples@ == resampled_upto(s, target_rate, original_rate, i as nat),
                decreases new_len - i,
            {
                let position: u128 = divide_floor(i, 1);
                assert(position * p <= 2 * whole) by (nonlinear_arith)
                    requires
                        0 <= position <= 2 * i,
                        i <= new_len,
                        new_len * p <= whole,
                        0 <= p,
                ;
                let source: u128 = divide_floor(position * p, m);
                if source < n as u128 {
                    new_samples.push(self.audio_samples[source as usize]);
                }
                i = i + 1;
            }
        }
        HFVHFMessage {
            frequency_khz: self.frequency_khz,
            modulation: self.modulation,
            audio_samples: new_samples,
        }
    }
}

/// Reading an encoded message gives it back, where it has at least the two
/// samples that a frame needs.
pub proof fn hfvhf_roundtrip(frequency_khz: u32, m: ModulationType, samples: Seq<i16>)
    requires
        samples.len() >= 2,
    ensures
        parses(hfvhf_frame(frequency_khz, m, samples)),
        be_value(hfvhf_frame(frequency_khz, m, samples).subrange(0, 4)) == frequency_khz,
        modulation_of(hfvhf_frame(frequency_khz, m, samples)[4]) == Some(m),
        samples_of(hfvhf_frame(frequency_khz, m, samples).skip(5)) == samples,
{
    let f = hfvhf_frame(frequency_khz, m, samples);
    lemma_pow256();
    lemma_be_value_of_bytes(frequency_khz as nat, 4);
    assert(f.subrange(0, 4) =~= be_bytes(frequency_khz as nat, 4));
    assert(f.skip(5) =~= sample_bytes(samples));
    let b = sample_bytes(samples);
    assert forall|i: int| 0 <= i < samples.len() implies #[trigger] samples_of(b)[i]
        == samples[i] by {
        assert((2 * i) / 2 == i && (2 * i + 1) / 2 == i);
        let w = sample_word(samples[i]);
        assert(w < 0x1_0000);
    }
    assert(samples_of(b) =~= samples);
}

/// A frame is the frequency in four bytes, the code of the modulation, and each sample in
/// two bytes, the less significant one first and negative ones in two's complement.
pub proof fn frame_holds_every_sample(frequency_khz: u32, m: ModulationType, samples: Seq<i16>)
    ensures
        ({
            let f = hfvhf_frame(frequency_khz, m, samples);
            &&& f.len() == 5 + 2 * samples.len()
            &&& be_value(f.subrange(0, 4)) == frequency_khz
            &&& modulation_of(f[4]) == Some(m)
            &&& forall|i: int|
                0 <= i < samples.len() ==> f[5 + 2 * i] + 256 * f[6 + 2 * i] == if (
                #[trigger] samples[i]) >= 0 {
                    samples[i] as int
                } else {
                    samples[i] + 0x1_0000
                }
        }),
{
    let f = hfvhf_frame(frequency_khz, m, samples);
    let b = sample_bytes(samples);
    lemma_pow256();
    lemma_be_value_of_bytes(frequency_khz as nat, 4);
    assert(f.subrange(0, 4) =~= be_bytes(frequency_khz as nat, 4));
    assert forall|i: int| 0 <= i < samples.len() implies f[5 + 2 * i] + 256 * f[6 + 2 * i] == if (
    #[trigger] samples[i]) >= 0 {
        samples[i] as int
    } else {
        samples[i] + 0x1_0000
    } by {
        assert((2 * i) / 2 == i && (2 * i + 1) / 2 == i);
        assert(f[5 + 2 * i] == b[2 * i]);
        assert(f[6 + 2 * i] == b[2 * i + 1]);
        let w = sample_word(samples[i]);
        assert(w < 0x1_0000);
    }
}

/// Every two bytes are a sample, none is left out, and an odd one at the end is none.
pub proof fn every_sample_is_read(d: Seq<u8>, i: int)
    requires
        0 <= i < d.len() / 2,
    ensures
        samples_of(d).len() == d.len() / 2,
        d[2 * i + 1] < 128 ==> samples_of(d)[i] == d[2 * i] + 256 * d[2 * i + 1],
        d[2 * i + 1] >= 128 ==> samples_of(d)[i] == d[2 * i] + 256 * d[2 * i + 1] - 0x1_0000,
{
}

/// The modulations by their codes; no other code stands for one.
pub proof fn modulations_by_code(b: u8, d: Seq<u8>)
    requires
        d.len() >= 8,
        d[4] == b,
    ensures
        modulation_of(b) == Some(ModulationType::AM) <==> b == 0,
        modulation_of(b) == Some(ModulationType::FM) <==> b == 1,
        modulation_of(b) == Some(ModulationType::SSB) <==> b == 2,
        modulation_of(b) == Some(ModulationType::CW) <==> b == 3,
        parses(d) <==> b <= 3,
{
}

/// Resampling adds no sound of its own: every sample of the result is one of the
/// recording, and there are no more of them than the rates call for.
pub proof fn resampling_repeats_samples(
    s: Seq<i16>,
    target_rate: u32,
    original_rate: u32,
    n: nat,
)
    ensures
        resampled_upto(s, target_rate, original_rate, n).len() <= n,
        forall|k: int|
            0 <= k < resampled_upto(s, target_rate, original_rate, n).len() ==> s.contains(
                #[trigger] resampled_upto(s, target_rate, original_rate, n)[k],
            ),
    decreases n,
{
    if n > 0 {
        resampling_repeats_samples(s, target_rate, original_rate, (n - 1) as nat);
    }
}

/// At the rate that it has, a recording stays what it is.
pub proof fn same_rate_keeps_the_recording(s: Seq<i16>, rate: u32)
    requires
        rate > 0,
        s.len() < 0x20_0000_0000_0000,
    ensures
        resampled(s, rate, rate) == s,
{
    let m = significand(rate as nat, rate as nat);
    let p = scale_up(rate as nat, rate as nat);
    lemma_ratio_of_one(rate as nat);
    let n = s.len();
    small_integers_are_doubles(n);
    lemma_scaled_integers_are_doubles(n, 52);
    vstd::arithmetic::div_mod::lemma_div_multiples_vanish(n as int, p as int);
    assert(n * p == p * n) by (nonlinear_arith);
    assert(resampled_len(n, rate, rate) == n);
    lemma_same_rate(s, rate, n);
    assert(s.subrange(0, n as int) =~= s);
}

proof fn lemma_same_rate(s: Seq<i16>, rate: u32, n: nat)
    requires
        rate > 0,
        s.len() < 0x20_0000_0000_0000,
        n <= s.len(),
    ensures
        resampled_upto(s, rate, rate, n) == s.subrange(0, n as int),
    decreases n,
{
    if n > 0 {
        let k = (n - 1) as nat;
        lemma_same_rate(s, rate, k);
        lemma_ratio_of_one(rate as nat);
        small_integers_are_doubles(k);
        let p = scale_up(rate as nat, rate as nat);
        lemma_whole_quotients_are_doubles(k, p);
        assert(source_of(k, rate, rate) == k);
        assert(s.subrange(0, k as int).push(s[k as int]) =~= s.subrange(0, n as int));
    } else {
        assert(s.subrange(0, 0) =~= Seq::<i16>::empty());
    }
}

/// What is read from a frame is its frequency, its modulation and every pair of bytes
/// behind them as a sample.
pub proof fn frames_are_read_whole(m: HFVHFMessage, frequency_khz: u32, code: u8, body: Seq<u8>)
    requires
        says(m, be_bytes(frequency_khz as nat, 4) + seq![code] + body),
    ensures
        m.frequency_khz == frequency_khz,
        m.modulation == ModulationType::AM <==> code == 0,
        m.modulation == ModulationType::FM <==> code == 1,
        m.modulation == ModulationType::SSB <==> code == 2,
        m.modulation == ModulationType::CW <==> code == 3,
        m.audio_samples@.len() == body.len() / 2,
        forall|i: int|
            0 <= i < body.len() / 2 ==> (#[trigger] m.audio_samples@[i]) == if body[2 * i + 1]
                < 128 {
                body[2 * i] + 256 * body[2 * i + 1]
            } else {
                body[2 * i] + 256 * body[2 * i + 1] - 0x1_0000
            },
{
    let d = be_bytes(frequency_khz as nat, 4) + seq![code] + body;
    lemma_pow256();
    lemma_be_value_of_bytes(frequency_khz as nat, 4);
    assert(d.subrange(0, 4) =~= be_bytes(frequency_khz as nat, 4));
    assert(d[4] == code);
    assert(d.skip(5) =~= body);
}

} // verus!
