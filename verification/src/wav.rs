//! RIFF WAVE container parsing (16-bit PCM). Turning the samples into
//! normalised floats, mixing channels and resampling stay with the caller.

use vstd::prelude::*;

use crate::text::{dec, owned, push_dec, push_str};

verus! {

/// The 16-bit PCM content of a WAVE file.
pub struct WavPcm {
    pub channels: u16,
    pub rate: u32,
    /// Interleaved samples, in file order.
    pub samples: Vec<i16>,
}

pub open spec fn le16(b: Seq<u8>, i: int) -> int {
    b[i] as int + 256 * (b[i + 1] as int)
}

pub open spec fn le32(b: Seq<u8>, i: int) -> int {
    le16(b, i) + 65536 * le16(b, i + 2)
}

pub open spec fn id_riff() -> Seq<u8> {
    seq![0x52u8, 0x49u8, 0x46u8, 0x46u8]
}

pub open spec fn id_wave() -> Seq<u8> {
    seq![0x57u8, 0x41u8, 0x56u8, 0x45u8]
}

pub open spec fn id_fmt() -> Seq<u8> {
    seq![0x66u8, 0x6du8, 0x74u8, 0x20u8]
}

pub open spec fn id_data() -> Seq<u8> {
    seq![0x64u8, 0x61u8, 0x74u8, 0x61u8]
}

/// (format tag, channels, sample rate, bits per sample) of a `fmt ` chunk.
pub type FmtSpec = (u16, u16, u32, u16);

/// Walks the chunks from offset `pos`; the last `fmt ` chunk whose body
/// holds at least 16 bytes and the last `data` chunk win. A chunk body is
/// cut at the end of the file; the next chunk starts after the declared
/// size plus a pad byte when the size is odd.
pub open spec fn walk(b: Seq<u8>, pos: int, fmt: Option<FmtSpec>, data: Option<(int, int)>) -> (
    Option<FmtSpec>,
    Option<(int, int)>,
)
    decreases (if pos <= b.len() { b.len() - pos } else { 0 }),
{
    if pos < 0 || pos + 8 > b.len() {
        (fmt, data)
    } else {
        let id = b.subrange(pos, pos + 4);
        let size = le32(b, pos + 4);
        let bs = pos + 8;
        let be = if bs + size <= b.len() {
            bs + size
        } else {
            b.len() as int
        };
        let nf = if id == id_fmt() && be - bs >= 16 {
            Some(
                (
                    le16(b, bs) as u16,
                    le16(b, bs + 2) as u16,
                    le32(b, bs + 4) as u32,
                    le16(b, bs + 14) as u16,
                ),
            )
        } else {
            fmt
        };
        let nd = if id != id_fmt() && id == id_data() {
            Some((bs, be))
        } else {
            data
        };
        walk(b, bs + size + size % 2, nf, nd)
    }
}

pub open spec fn to_i16(x: int) -> i16 {
    if x >= 32768 {
        (x - 65536) as i16
    } else {
        x as i16
    }
}

/// Little-endian 16-bit samples of `raw`; an odd last byte is dropped.
pub open spec fn samples_of(raw: Seq<u8>) -> Seq<i16> {
    Seq::new(raw.len() / 2, |i: int| to_i16(le16(raw, 2 * i)))
}

pub open spec fn unsupported_message(fmt: u16, bits: u16) -> Seq<char> {
    "only 16-bit PCM supported (fmt="@ + dec(fmt as nat) + ", bits="@ + dec(bits as nat) + ")"@
}

/// What `parse_wav` returns: `(channels, rate, samples)` or the message.
pub open spec fn parse_wav_spec(b: Seq<u8>) -> Result<(u16, u32, Seq<i16>), Seq<char>> {
    if b.len() < 44 || b.subrange(0, 4) != id_riff() || b.subrange(8, 12) != id_wave() {
        Err("not a RIFF WAVE file"@)
    } else {
        let (fmt, data) = walk(b, 12, None, None);
        match fmt {
            None => Err("no fmt chunk"@),
            Some(f) => match data {
                None => Err("no data chunk"@),
                Some((ds, de)) => if f.0 != 1 || f.3 != 16 {
                    Err(unsupported_message(f.0, f.3))
                } else {
                    Ok((f.1, f.2, samples_of(b.subrange(ds, de))))
                },
            },
        }
    }
}

fn rd16(b: &[u8], i: usize) -> (r: u64)
    requires
        i + 1 < b.len(),
    ensures
        r == le16(b@, i as int),
        r < 65536,
{
    b[i] as u64 + 256 * (b[i + 1] as u64)
}

fn rd32(b: &[u8], i: usize) -> (r: u64)
    requires
        i + 3 < b.len(),
    ensures
        r == le32(b@, i as int),
        r < 0x1_0000_0000,
{
    rd16(b, i) + 65536 * rd16(b, i + 2)
}

fn is_id(b: &[u8], i: usize, c0: u8, c1: u8, c2: u8, c3: u8) -> (r: bool)
    requires
        i + 3 < b.len(),
    ensures
        r == (b@.subrange(i as int, i + 4) == seq![c0, c1, c2, c3]),
{
    let r = b[i] == c0 && b[i + 1] == c1 && b[i + 2] == c2 && b[i + 3] == c3;
    if r {
        assert(b@.subrange(i as int, i + 4) =~= seq![c0, c1, c2, c3]);
    } else {
        proof {
            if b@.subrange(i as int, i + 4) == seq![c0, c1, c2, c3] {
                assert(b@.subrange(i as int, i + 4)[0] == c0);
                assert(b@.subrange(i as int, i + 4)[1] == c1);
                assert(b@.subrange(i as int, i + 4)[2] == c2);
                assert(b@.subrange(i as int, i + 4)[3] == c3);
            }
        }
    }
    r
}

/// Parses a RIFF WAVE file holding 16-bit PCM.
pub fn parse_wav(bytes: &[u8]) -> (r: Result<WavPcm, String>)
    ensures
        r matches Ok(w) ==> parse_wav_spec(bytes@) == Ok::<(u16, u32, Seq<i16>), Seq<char>>(
            (w.channels, w.rate, w.samples@),
        ),
        r matches Err(e) ==> parse_wav_spec(bytes@) == Err::<(u16, u32, Seq<i16>), Seq<char>>(
            e@,
        ),
{
    let n = bytes.len();
    if n < 44 || !is_id(bytes, 0, 0x52, 0x49, 0x46, 0x46) || !is_id(bytes, 8, 0x57, 0x41, 0x56, 0x45) {
        return Err(owned("not a RIFF WAVE file"));
    }
    let mut pos: u128 = 12;
    let mut fmt: Option<(u16, u16, u32, u16)> = None;
    let mut data: Option<(usize, usize)> = None;
    while pos + 8 <= n as u128
        invariant
            n == bytes@.len(),
            walk(
                bytes@,
                pos as int,
                fmt,
                match data {
                    Some(d) => Some((d.0 as int, d.1 as int)),
                    None => None,
                },
            ) == walk(bytes@, 12, None, None),
            data matches Some(d) ==> d.0 <= d.1 <= n,
            pos <= n as u128 + 0x2_0000_0000,
        decreases (if pos <= n as u128 { n as u128 - pos } else { 0 }),
    {
        let p = pos as usize;
        let size = rd32(bytes, p + 4);
        let bs: u128 = pos + 8;
        let be: u128 = if bs + size as u128 <= n as u128 {
            bs + size as u128
        } else {
            n as u128
        };
        let fmt_id = is_id(bytes, p, 0x66, 0x6d, 0x74, 0x20);
        if fmt_id {
            if be - bs >= 16 {
                let b = bs as usize;
                fmt = Some(
                    (
                        rd16(bytes, b) as u16,
                        rd16(bytes, b + 2) as u16,
                        rd32(bytes, b + 4) as u32,
                        rd16(bytes, b + 14) as u16,
                    ),
                );
            }
        } else if is_id(bytes, p, 0x64, 0x61, 0x74, 0x61) {
            data = Some((bs as usize, be as usize));
        }
        pos = bs + size as u128 + (size % 2) as u128;
    }
    match fmt {
        None => Err(owned("no fmt chunk")),
        Some(f) => match data {
            None => Err(owned("no data chunk")),
            Some((ds, de)) => {
                if f.0 != 1 || f.3 != 16 {
                    let mut m = owned("only 16-bit PCM supported (fmt=");
                    push_dec(&mut m, f.0 as u64);
                    push_str(&mut m, ", bits=");
                    push_dec(&mut m, f.3 as u64);
                    push_str(&mut m, ")");
                    return Err(m);
                }
                let count = (de - ds) / 2;
                let mut samples: Vec<i16> = Vec::new();
                let mut i: usize = 0;
                while i < count
                    invariant
                        i <= count,
                        count == (de - ds) / 2,
                        ds <= de <= bytes@.len(),
                        samples@ == samples_of(bytes@.subrange(ds as int, de as int)).take(
                            i as int,
                        ),
                    decreases count - i,
                {
                    let v: i32 = bytes[ds + 2 * i] as i32 + 256 * (bytes[ds + 2 * i + 1] as i32);
                    let s: i16 = if v >= 32768 {
                        (v - 65536) as i16
                    } else {
                        v as i16
                    };
                    samples.push(s);
                    proof {
                        let raw = bytes@.subrange(ds as int, de as int);
                        assert(raw[2 * i] == bytes@[ds + 2 * i]);
                        assert(raw[2 * i + 1] == bytes@[ds + 2 * i + 1]);
                    }
                    i += 1;
                    assert(samples@ =~= samples_of(bytes@.subrange(ds as int, de as int)).take(
                        i as int,
                    ));
                }
                assert(samples@ =~= samples_of(bytes@.subrange(ds as int, de as int)));
                Ok(WavPcm { channels: f.1, rate: f.2, samples })
            },
        },
    }
}


// ---------------------------------------------------------------------------
// writing a file back, and reading it
// ---------------------------------------------------------------------------

pub open spec fn byte0(x: int) -> u8 {
    (x % 256) as u8
}

pub open spec fn byte1(x: int) -> u8 {
    ((x / 256) % 256) as u8
}

pub open spec fn byte2(x: int) -> u8 {
    ((x / 65536) % 256) as u8
}

pub open spec fn byte3(x: int) -> u8 {
    ((x / 16777216) % 256) as u8
}

/// `x` as two little-endian bytes.
pub open spec fn le_bytes2(x: int) -> Seq<u8> {
    seq![byte0(x), byte1(x)]
}

/// `x` as four little-endian bytes.
pub open spec fn le_bytes4(x: int) -> Seq<u8> {
    seq![byte0(x), byte1(x), byte2(x), byte3(x)]
}

/// The canonical 44-byte header of a PCM WAVE file with `n` data bytes.
pub open spec fn wav_header(tag: u16, channels: u16, rate: u32, bits: u16, n: int) -> Seq<u8> {
    let block = channels as int * (bits as int / 8);
    id_riff() + le_bytes4(36 + n) + id_wave() + id_fmt() + le_bytes4(16) + le_bytes2(tag as int)
        + le_bytes2(channels as int) + le_bytes4(rate as int) + le_bytes4(rate as int * block)
        + le_bytes2(block) + le_bytes2(bits as int) + id_data() + le_bytes4(n)
}

/// A 16-bit sample as two little-endian bytes (two's complement).
pub open spec fn sample_bytes(v: i16) -> Seq<u8> {
    le_bytes2(
        if v < 0 {
            v + 65536
        } else {
            v as int
        },
    )
}

/// Samples as the data bytes of a 16-bit PCM file.
pub open spec fn pcm_bytes(s: Seq<i16>) -> Seq<u8>
    decreases s.len(),
{
    if s.len() == 0 {
        seq![]
    } else {
        pcm_bytes(s.drop_last()) + sample_bytes(s.last())
    }
}

/// The WAVE file a writer makes of a format and samples: the header, then
/// one data chunk with the samples.
pub open spec fn wav_file(tag: u16, channels: u16, rate: u32, bits: u16, samples: Seq<i16>) -> Seq<
    u8,
> {
    wav_header(tag, channels, rate, bits, 2 * samples.len() as int) + pcm_bytes(samples)
}

proof fn lemma_le2(x: int)
    requires
        0 <= x < 65536,
    ensures
        byte0(x) as int + 256 * (byte1(x) as int) == x,
{
    assert(0 <= x % 256 < 256);
    assert(0 <= (x / 256) % 256 < 256);
    assert((x / 256) % 256 == x / 256);
}

proof fn lemma_le4(x: int)
    requires
        0 <= x < 0x1_0000_0000,
    ensures
        byte0(x) as int + 256 * (byte1(x) as int) + 65536 * (byte2(x) as int + 256 * (
        byte3(x) as int)) == x,
{
    assert(0 <= x % 256 < 256);
    assert(0 <= (x / 256) % 256 < 256);
    assert(0 <= (x / 65536) % 256 < 256);
    assert(0 <= (x / 16777216) % 256 < 256);
    assert((x / 16777216) % 256 == x / 16777216);
    assert(x == x % 256 + 256 * ((x / 256) % 256) + 65536 * ((x / 65536) % 256) + 16777216 * (x
        / 16777216)) by (nonlinear_arith)
        requires
            0 <= x < 0x1_0000_0000,
    ;
}

proof fn lemma_pcm_bytes(s: Seq<i16>)
    ensures
        pcm_bytes(s).len() == 2 * s.len(),
        forall|i: int|
            0 <= i < s.len() ==> pcm_bytes(s)[2 * i] == #[trigger] sample_bytes(s[i])[0]
                && pcm_bytes(s)[2 * i + 1] == sample_bytes(s[i])[1],
    decreases s.len(),
{
    if s.len() > 0 {
        let init = s.drop_last();
        lemma_pcm_bytes(init);
        assert forall|i: int| 0 <= i < s.len() implies pcm_bytes(s)[2 * i] == #[trigger] sample_bytes(
            s[i],
        )[0] && pcm_bytes(s)[2 * i + 1] == sample_bytes(s[i])[1] by {
            if i < init.len() {
                assert(s[i] == init[i]);
                assert(sample_bytes(init[i])[0] == sample_bytes(s[i])[0]);
            }
        }
    }
}

proof fn lemma_samples_back(s: Seq<i16>)
    ensures
        samples_of(pcm_bytes(s)) == s,
{
    lemma_pcm_bytes(s);
    let raw = pcm_bytes(s);
    assert forall|i: int| 0 <= i < s.len() implies #[trigger] samples_of(raw)[i] == s[i] by {
        let v = s[i];
        let u = if v < 0 {
            v + 65536
        } else {
            v as int
        };
        lemma_le2(u);
        assert(sample_bytes(v)[0] == byte0(u));
        assert(raw[2 * i] == byte0(u));
        assert(raw[2 * i + 1] == byte1(u));
        assert(le16(raw, 2 * i) == u);
    }
    assert(samples_of(raw) =~= s);
}

/// What a writer makes, `parse_wav` reads back: for a 16-bit PCM format
/// the channel count, the full 32-bit sample rate and every sample, in
/// order; any other format is refused with its tag and sample size.
#[verifier::spinoff_prover]
pub proof fn law_wav_round_trip(tag: u16, channels: u16, rate: u32, bits: u16, samples: Seq<i16>)
    requires
        36 + 2 * samples.len() < 0x1_0000_0000,
    ensures
        parse_wav_spec(wav_file(tag, channels, rate, bits, samples)) == if tag == 1 && bits == 16 {
            Ok::<(u16, u32, Seq<i16>), Seq<char>>((channels, rate, samples))
        } else {
            Err::<(u16, u32, Seq<i16>), Seq<char>>(unsupported_message(tag, bits))
        },
{
    let n: int = 2 * samples.len() as int;
    let h = wav_header(tag, channels, rate, bits, n);
    let pcm = pcm_bytes(samples);
    let b = wav_file(tag, channels, rate, bits, samples);
    lemma_pcm_bytes(samples);
    assert(h.len() == 44);
    assert(b.len() == 44 + n);
    assert forall|i: int| 0 <= i < 44 implies #[trigger] b[i] == h[i] by {}
    assert(b.subrange(44, 44 + n) =~= pcm);
    assert(b.subrange(0, 4) =~= id_riff());
    assert(b.subrange(8, 12) =~= id_wave());
    assert(b.subrange(12, 16) =~= id_fmt());
    assert(b.subrange(36, 40) =~= id_data());
    assert(id_data() != id_fmt()) by {
        assert(id_data()[0] != id_fmt()[0]);
    }
    lemma_le4(16);
    lemma_le4(36 + n);
    lemma_le4(n);
    lemma_le4(rate as int);
    lemma_le2(tag as int);
    lemma_le2(channels as int);
    lemma_le2(bits as int);
    assert(le32(b, 16) == 16);
    assert(le16(b, 20) == tag);
    assert(le16(b, 22) == channels);
    assert(le32(b, 24) == rate);
    assert(le16(b, 34) == bits);
    assert(le32(b, 40) == n);
    let f: FmtSpec = (tag, channels, rate, bits);
    assert(walk(b, 12, None, None) == walk(b, 36, Some(f), None));
    assert(walk(b, 36, Some(f), None) == walk(b, 44 + n, Some(f), Some((44, 44 + n))));
    assert(walk(b, 44 + n, Some(f), Some((44, 44 + n))) == (Some(f), Some((44int, 44 + n))));
    lemma_samples_back(samples);
}

} // verus!
