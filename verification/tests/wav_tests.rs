use tarjama::wav::parse_wav;

fn chunk(id: &[u8; 4], body: &[u8], declared: u32) -> Vec<u8> {
    let mut v = id.to_vec();
    v.extend_from_slice(&declared.to_le_bytes());
    v.extend_from_slice(body);
    v
}

fn fmt_body(tag: u16, channels: u16, rate: u32, bits: u16) -> Vec<u8> {
    let mut b = Vec::new();
    b.extend_from_slice(&tag.to_le_bytes());
    b.extend_from_slice(&channels.to_le_bytes());
    b.extend_from_slice(&rate.to_le_bytes());
    b.extend_from_slice(&(rate * 2).to_le_bytes());
    b.extend_from_slice(&2u16.to_le_bytes());
    b.extend_from_slice(&bits.to_le_bytes());
    b
}

fn riff(chunks: &[Vec<u8>]) -> Vec<u8> {
    let mut body = b"WAVE".to_vec();
    for c in chunks {
        body.extend_from_slice(c);
    }
    let mut v = b"RIFF".to_vec();
    v.extend_from_slice(&(body.len() as u32).to_le_bytes());
    v.extend_from_slice(&body);
    v
}

fn pcm(samples: &[i16]) -> Vec<u8> {
    samples.iter().flat_map(|s| s.to_le_bytes()).collect()
}

fn err_of(bytes: &[u8]) -> String {
    match parse_wav(bytes) {
        Ok(_) => panic!("expected an error"),
        Err(e) => e,
    }
}

#[test]
fn parses_mono_pcm() {
    let s = [1i16, -2, 32767, -32768];
    let wav = riff(&[chunk(b"fmt ", &fmt_body(1, 1, 16000, 16), 16), chunk(b"data", &pcm(&s), 8)]);
    let w = parse_wav(&wav).ok().expect("valid file");
    assert_eq!(w.channels, 1);
    assert_eq!(w.rate, 16000);
    assert_eq!(w.samples, s.to_vec());
}

#[test]
fn keeps_stereo_interleaved_and_rate() {
    let s = [10i16, 20, -10, -20];
    let wav = riff(&[chunk(b"fmt ", &fmt_body(1, 2, 44100, 16), 16), chunk(b"data", &pcm(&s), 8)]);
    let w = parse_wav(&wav).ok().expect("valid file");
    assert_eq!((w.channels, w.rate), (2, 44100));
    assert_eq!(w.samples, s.to_vec());
}

#[test]
fn rejects_short_or_foreign_files() {
    assert_eq!(err_of(b"RIFF"), "not a RIFF WAVE file");
    let mut wav = riff(&[chunk(b"fmt ", &fmt_body(1, 1, 16000, 16), 16), chunk(b"data", &pcm(&[0; 4]), 8)]);
    wav[8] = b'X';
    assert_eq!(err_of(&wav), "not a RIFF WAVE file");
    let mut wav2 = wav.clone();
    wav2[8] = b'W';
    wav2[0] = b'r';
    assert_eq!(err_of(&wav2), "not a RIFF WAVE file");
}

#[test]
fn needs_fmt_and_data_chunks() {
    let no_fmt = riff(&[chunk(b"data", &pcm(&[0; 16]), 32)]);
    assert_eq!(err_of(&no_fmt), "no fmt chunk");
    let no_data = riff(&[chunk(b"fmt ", &fmt_body(1, 1, 16000, 16), 16), chunk(b"LIST", &[0u8; 8], 8)]);
    assert_eq!(err_of(&no_data), "no data chunk");
}

#[test]
fn only_16_bit_pcm() {
    let wav = riff(&[chunk(b"fmt ", &fmt_body(3, 1, 16000, 32), 16), chunk(b"data", &pcm(&[0; 4]), 8)]);
    assert_eq!(err_of(&wav), "only 16-bit PCM supported (fmt=3, bits=32)");
    let wav8 = riff(&[chunk(b"fmt ", &fmt_body(1, 1, 16000, 8), 16), chunk(b"data", &pcm(&[0; 4]), 8)]);
    assert_eq!(err_of(&wav8), "only 16-bit PCM supported (fmt=1, bits=8)");
}

#[test]
fn odd_chunks_are_padded_and_short_data_is_cut() {
    let wav = riff(&[
        chunk(b"LIST", &[7u8, 7, 7, 0], 3),
        chunk(b"fmt ", &fmt_body(1, 1, 8000, 16), 16),
        chunk(b"data", &[1u8, 0, 2, 0, 9], 100),
    ]);
    let w = parse_wav(&wav).ok().expect("valid file");
    assert_eq!(w.rate, 8000);
    assert_eq!(w.samples, vec![1i16, 2]);
}
