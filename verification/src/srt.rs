//! Subtitle writers: SubRip (Arabic, bilingual), WebVTT and plain text.

use vstd::prelude::*;

use crate::model::Seg;
use crate::supervisor::{digits_value, is_digit, lemma_dec_digits};
use crate::text::{
    dec, join, lemma_dec_len, lemma_join_push, lemma_trim_idempotent, pad, push_dec, push_pad,
    owned, pair_views, push_str, trim, trim_str, zeros,
};

verus! {

/// `HH:MM:SS<sep>mmm` for a time in milliseconds; negative times print as 0.
#[verifier::opaque]
pub open spec fn ts(ms: int, sep: char) -> Seq<char> {
    let m = if ms < 0 { 0 } else { ms };
    let s = m / 1000;
    let rem = m % 1000;
    let h = s / 3600;
    let r = s % 3600;
    pad(h as nat, 2) + seq![':'] + pad((r / 60) as nat, 2) + seq![':'] + pad((r % 60) as nat, 2)
        + seq![sep] + pad(rem as nat, 3)
}

pub open spec fn arrow() -> Seq<char> {
    seq![' ', '-', '-', '>', ' ']
}

/// Cue header: index (from 1), then the timing line.
pub open spec fn cue_head(i: int, s: Seg, sep: char) -> Seq<char> {
    dec((i + 1) as nat) + seq!['\n'] + ts(s.t0 as int, sep) + arrow() + ts(s.t1 as int, sep) + seq![
        '\n',
    ]
}

/// Arabic-only cue `i`.
pub open spec fn cue_ar(i: int, s: Seg, sep: char) -> Seq<char> {
    cue_head(i, s, sep) + s.ar@ + seq!['\n', '\n']
}

/// Bilingual cue `i`: Arabic line, then Turkish line.
pub open spec fn cue_bi(i: int, s: Seg) -> Seq<char> {
    cue_head(i, s, ',') + s.ar@ + seq!['\n'] + s.tr@ + seq!['\n', '\n']
}

pub open spec fn srt_ar_spec(segs: Seq<Seg>) -> Seq<char>
    decreases segs.len(),
{
    if segs.len() == 0 {
        seq![]
    } else {
        srt_ar_spec(segs.drop_last()) + cue_ar(segs.len() - 1, segs.last(), ',')
    }
}

pub open spec fn srt_bi_spec(segs: Seq<Seg>) -> Seq<char>
    decreases segs.len(),
{
    if segs.len() == 0 {
        seq![]
    } else {
        srt_bi_spec(segs.drop_last()) + cue_bi(segs.len() - 1, segs.last())
    }
}

pub open spec fn vtt_cues_spec(segs: Seq<Seg>) -> Seq<char>
    decreases segs.len(),
{
    if segs.len() == 0 {
        seq![]
    } else {
        vtt_cues_spec(segs.drop_last()) + cue_ar(segs.len() - 1, segs.last(), '.')
    }
}

pub open spec fn vtt_header() -> Seq<char> {
    seq!['W', 'E', 'B', 'V', 'T', 'T', '\n', '\n']
}

pub open spec fn vtt_ar_spec(segs: Seq<Seg>) -> Seq<char> {
    vtt_header() + vtt_cues_spec(segs)
}

/// The trimmed, non-empty Arabic (`arabic == true`) or Turkish lines.
pub open spec fn text_lines(segs: Seq<Seg>, arabic: bool) -> Seq<Seq<char>>
    decreases segs.len(),
{
    if segs.len() == 0 {
        seq![]
    } else {
        let t = trim(if arabic { segs.last().ar@ } else { segs.last().tr@ });
        if t.len() > 0 {
            text_lines(segs.drop_last(), arabic).push(t)
        } else {
            text_lines(segs.drop_last(), arabic)
        }
    }
}

pub open spec fn txt_spec(segs: Seq<Seg>, arabic: bool) -> Seq<char> {
    join(text_lines(segs, arabic), seq!['\n']) + seq!['\n']
}

fn push_ts(out: &mut String, ms: i64, sep: char)
    ensures
        final(out)@ == old(out)@ + ts(ms as int, sep),
{
    reveal(ts);
    let m: u64 = if ms < 0 {
        0
    } else {
        ms as u64
    };
    let s = m / 1000;
    let rem = m % 1000;
    let h = s / 3600;
    let r = s % 3600;
    push_pad(out, h, 2);
    out.push(':');
    push_pad(out, r / 60, 2);
    out.push(':');
    push_pad(out, r % 60, 2);
    out.push(sep);
    push_pad(out, rem, 3);
    assert(out@ =~= old(out)@ + ts(ms as int, sep));
}

/// SubRip time stamp, `HH:MM:SS,mmm`.
pub fn ts_srt(ms: i64) -> (r: String)
    ensures
        r@ == ts(ms as int, ','),
{
    let mut r = String::new();
    push_ts(&mut r, ms, ',');
    assert(r@ =~= ts(ms as int, ','));
    r
}

/// WebVTT time stamp, `HH:MM:SS.mmm`.
pub fn ts_vtt(ms: i64) -> (r: String)
    ensures
        r@ == ts(ms as int, '.'),
{
    let mut r = String::new();
    push_ts(&mut r, ms, '.');
    assert(r@ =~= ts(ms as int, '.'));
    r
}

fn push_cue_head(out: &mut String, i: usize, s: &Seg, sep: char)
    requires
        i < usize::MAX,
    ensures
        final(out)@ == old(out)@ + cue_head(i as int, *s, sep),
{
    let ghost o = old(out)@;
    push_dec(out, (i + 1) as u64);
    out.push('\n');
    let ghost a = out@;
    push_ts(out, s.t0, sep);
    let ghost b = out@;
    out.push(' ');
    out.push('-');
    out.push('-');
    out.push('>');
    out.push(' ');
    assert(out@ =~= b + arrow());
    push_ts(out, s.t1, sep);
    out.push('\n');
    assert(out@ =~= o + cue_head(i as int, *s, sep));
}

/// Arabic subtitles in SubRip format.
pub fn srt_ar(segs: &[Seg]) -> (r: String)
    ensures
        r@ == srt_ar_spec(segs@),
{
    let mut out = String::new();
    let mut i: usize = 0;
    while i < segs.len()
        invariant
            i <= segs.len(),
            out@ == srt_ar_spec(segs@.take(i as int)),
        decreases segs.len() - i,
    {
        let ghost before = out@;
        push_cue_head(&mut out, i, &segs[i], ',');
        push_str(&mut out, segs[i].ar.as_str());
        out.push('\n');
        out.push('\n');
        proof {
            assert(segs@.take(i + 1).drop_last() =~= segs@.take(i as int));
            assert(out@ =~= before + cue_ar(i as int, segs@[i as int], ','));
        }
        i += 1;
    }
    assert(segs@.take(segs.len() as int) =~= segs@);
    out
}

/// Bilingual subtitles in SubRip format: Arabic line above the Turkish one.
pub fn srt_bilingual(segs: &[Seg]) -> (r: String)
    ensures
        r@ == srt_bi_spec(segs@),
{
    let mut out = String::new();
    let mut i: usize = 0;
    while i < segs.len()
        invariant
            i <= segs.len(),
            out@ == srt_bi_spec(segs@.take(i as int)),
        decreases segs.len() - i,
    {
        let ghost before = out@;
        push_cue_head(&mut out, i, &segs[i], ',');
        push_str(&mut out, segs[i].ar.as_str());
        out.push('\n');
        push_str(&mut out, segs[i].tr.as_str());
        out.push('\n');
        out.push('\n');
        proof {
            assert(segs@.take(i + 1).drop_last() =~= segs@.take(i as int));
            assert(out@ =~= before + cue_bi(i as int, segs@[i as int]));
        }
        i += 1;
    }
    assert(segs@.take(segs.len() as int) =~= segs@);
    out
}

/// Arabic subtitles in WebVTT format.
pub fn vtt_ar(segs: &[Seg]) -> (r: String)
    ensures
        r@ == vtt_ar_spec(segs@),
{
    let mut out = String::new();
    out.push('W');
    out.push('E');
    out.push('B');
    out.push('V');
    out.push('T');
    out.push('T');
    out.push('\n');
    out.push('\n');
    let mut i: usize = 0;
    assert(out@ =~= vtt_header() + vtt_cues_spec(segs@.take(0)));
    while i < segs.len()
        invariant
            i <= segs.len(),
            out@ == vtt_header() + vtt_cues_spec(segs@.take(i as int)),
        decreases segs.len() - i,
    {
        let ghost before = out@;
        push_cue_head(&mut out, i, &segs[i], '.');
        push_str(&mut out, segs[i].ar.as_str());
        out.push('\n');
        out.push('\n');
        proof {
            assert(segs@.take(i + 1).drop_last() =~= segs@.take(i as int));
            assert(out@ =~= vtt_header() + vtt_cues_spec(segs@.take(i + 1)));
        }
        i += 1;
    }
    assert(segs@.take(segs.len() as int) =~= segs@);
    out
}

fn txt(segs: &[Seg], arabic: bool) -> (r: String)
    ensures
        r@ == txt_spec(segs@, arabic),
{
    let mut out = String::new();
    let mut any = false;
    let mut i: usize = 0;
    while i < segs.len()
        invariant
            i <= segs.len(),
            any == (text_lines(segs@.take(i as int), arabic).len() > 0),
            out@ == join(text_lines(segs@.take(i as int), arabic), seq!['\n']),
        decreases segs.len() - i,
    {
        let t = if arabic {
            trim_str(segs[i].ar.as_str())
        } else {
            trim_str(segs[i].tr.as_str())
        };
        proof {
            assert(segs@.take(i + 1).drop_last() =~= segs@.take(i as int));
            assert(segs@.take(i + 1).last() == segs@[i as int]);
        }
        if !t.as_str().is_empty() {
            proof {
                lemma_join_push(text_lines(segs@.take(i as int), arabic), t@, seq!['\n']);
            }
            if any {
                out.push('\n');
            }
            push_str(&mut out, t.as_str());
            any = true;
        }
        i += 1;
    }
    assert(segs@.take(segs.len() as int) =~= segs@);
    out.push('\n');
    out
}

/// Arabic text only: one trimmed line per non-empty subtitle.
pub fn txt_ar(segs: &[Seg]) -> (r: String)
    ensures
        r@ == txt_spec(segs@, true),
{
    txt(segs, true)
}

/// Turkish text only: one trimmed line per non-empty subtitle.
pub fn txt_tr(segs: &[Seg]) -> (r: String)
    ensures
        r@ == txt_spec(segs@, false),
{
    txt(segs, false)
}

/// The subtitle files of one job, as `(suffix, contents)`, in the order the
/// engine writes them.
pub open spec fn export_spec(segs: Seq<Seg>) -> Seq<(Seq<char>, Seq<char>)> {
    seq![
        ("ar.srt"@, srt_ar_spec(segs)),
        ("bilingual.srt"@, srt_bi_spec(segs)),
        ("ar.vtt"@, vtt_ar_spec(segs)),
        ("ar.txt"@, txt_spec(segs, true)),
        ("tr.txt"@, txt_spec(segs, false)),
    ]
}

/// Collect exported subtitle strings for one job.
pub fn export_strings(segs: &[Seg]) -> (r: Vec<(String, String)>)
    ensures
        pair_views(r@) == export_spec(segs@),
{
    let mut r: Vec<(String, String)> = Vec::new();
    r.push((owned("ar.srt"), srt_ar(segs)));
    r.push((owned("bilingual.srt"), srt_bilingual(segs)));
    r.push((owned("ar.vtt"), vtt_ar(segs)));
    r.push((owned("ar.txt"), txt_ar(segs)));
    r.push((owned("tr.txt"), txt_tr(segs)));
    assert(pair_views(r@) =~= export_spec(segs@));
    r
}


/// Negative times are written as time zero.
pub proof fn law_negative_time_is_zero(ms: int, sep: char)
    requires
        ms < 0,
    ensures
        ts(ms, sep) == ts(0, sep),
{
    reveal(ts);
}

/// Every character is a decimal digit.
pub open spec fn all_digits(d: Seq<char>) -> bool {
    forall|i: int| 0 <= i < d.len() ==> is_digit(#[trigger] d[i])
}

proof fn lemma_zeros_value(k: int)
    ensures
        all_digits(zeros(k)),
        digits_value(zeros(k)) == 0,
    decreases k,
{
    if k > 0 {
        lemma_zeros_value(k - 1);
        assert(zeros(k).drop_last() =~= zeros(k - 1));
        assert(zeros(k).last() == '0');
    } else {
        assert(zeros(k) =~= Seq::<char>::empty());
    }
}

proof fn lemma_leading_zeros(k: int, d: Seq<char>)
    ensures
        digits_value(zeros(k) + d) == digits_value(d),
    decreases d.len(),
{
    if d.len() == 0 {
        assert(zeros(k) + d =~= zeros(k));
        lemma_zeros_value(k);
    } else {
        lemma_leading_zeros(k, d.drop_last());
        assert((zeros(k) + d).drop_last() =~= zeros(k) + d.drop_last());
        assert((zeros(k) + d).last() == d.last());
    }
}

proof fn lemma_pad_digits(n: nat, w: int)
    ensures
        all_digits(pad(n, w)),
        digits_value(pad(n, w)) == n,
        pad(n, w).len() == if w > dec(n).len() {
            w
        } else {
            dec(n).len() as int
        },
{
    let k = w - dec(n).len();
    lemma_zeros_value(k);
    lemma_dec_digits(n);
    lemma_leading_zeros(k, dec(n));
    let p = pad(n, w);
    assert forall|i: int| 0 <= i < p.len() implies is_digit(#[trigger] p[i]) by {
        if i < zeros(k).len() {
            assert(p[i] == zeros(k)[i]);
        } else {
            assert(p[i] == dec(n)[i - zeros(k).len()]);
        }
    }
}

/// A time stamp reads back to the time it stands for, a negative time as
/// zero: at least two digits of hours, two of minutes and two of seconds
/// (both below 60), and three of milliseconds, after the separators.
pub proof fn law_ts_reads_back(ms: int, sep: char)
    ensures
        ({
            let t = ts(ms, sep);
            let n = t.len() as int;
            let hh = t.take(n - 10);
            let mm = t.subrange(n - 9, n - 7);
            let ss = t.subrange(n - 6, n - 4);
            let ml = t.skip(n - 3);
            &&& n >= 12
            &&& t[n - 10] == ':' && t[n - 7] == ':' && t[n - 4] == sep
            &&& all_digits(hh) && all_digits(mm) && all_digits(ss) && all_digits(ml)
            &&& digits_value(mm) < 60 && digits_value(ss) < 60
            &&& digits_value(hh) * 3600000 + digits_value(mm) * 60000 + digits_value(ss) * 1000
                + digits_value(ml) == if ms < 0 {
                0
            } else {
                ms
            }
        }),
{
    reveal(ts);
    let m = if ms < 0 {
        0
    } else {
        ms
    };
    let s = m / 1000;
    let rem = m % 1000;
    let h = s / 3600;
    let r = s % 3600;
    assert(h * 3600000 + (r / 60) * 60000 + (r % 60) * 1000 + rem == m) by (nonlinear_arith)
        requires
            m >= 0,
            s == m / 1000,
            rem == m % 1000,
            h == s / 3600,
            r == s % 3600,
    ;
    let p1 = pad(h as nat, 2);
    let p2 = pad((r / 60) as nat, 2);
    let p3 = pad((r % 60) as nat, 2);
    let p4 = pad(rem as nat, 3);
    lemma_dec_len(h as nat);
    lemma_dec_len((r / 60) as nat);
    lemma_dec_len((r % 60) as nat);
    lemma_dec_len(rem as nat);
    lemma_pad_digits(h as nat, 2);
    lemma_pad_digits((r / 60) as nat, 2);
    lemma_pad_digits((r % 60) as nat, 2);
    lemma_pad_digits(rem as nat, 3);
    let t = ts(ms, sep);
    assert(t == p1 + seq![':'] + p2 + seq![':'] + p3 + seq![sep] + p4);
    let n = t.len() as int;
    assert(p2.len() == 2 && p3.len() == 2 && p4.len() == 3 && p1.len() >= 2);
    assert(t.take(n - 10) =~= p1);
    assert(t.subrange(n - 9, n - 7) =~= p2);
    assert(t.subrange(n - 6, n - 4) =~= p3);
    assert(t.skip(n - 3) =~= p4);
}

/// A WebVTT time stamp is the SubRip one with `.` in place of the `,`
/// before the milliseconds.
pub proof fn law_vtt_stamp_is_srt_stamp(ms: int)
    ensures
        ts(ms, ',').len() >= 4,
        ts(ms, '.') == ts(ms, ',').update(ts(ms, ',').len() - 4, '.'),
{
    reveal(ts);
    let m = if ms < 0 {
        0
    } else {
        ms
    };
    let s = m / 1000;
    let rem = m % 1000;
    let h = s / 3600;
    let r = s % 3600;
    let head = pad(h as nat, 2) + seq![':'] + pad((r / 60) as nat, 2) + seq![':'] + pad(
        (r % 60) as nat,
        2,
    );
    lemma_dec_len(rem as nat);
    let tail = pad(rem as nat, 3);
    assert(tail.len() == 3);
    assert(ts(ms, ',') == head + seq![','] + tail);
    assert(ts(ms, '.') == head + seq!['.'] + tail);
    assert(ts(ms, '.') =~= ts(ms, ',').update(ts(ms, ',').len() - 4, '.'));
}

/// `s` with every `,` made a `.` (what `str::replace(',', ".")` gives).
pub open spec fn comma_to_dot(s: Seq<char>) -> Seq<char> {
    s.map_values(|c: char| if c == ',' { '.' } else { c })
}

proof fn lemma_comma_to_dot_add(a: Seq<char>, b: Seq<char>)
    ensures
        comma_to_dot(a + b) == comma_to_dot(a) + comma_to_dot(b),
{
    assert(comma_to_dot(a + b) =~= comma_to_dot(a) + comma_to_dot(b));
}

proof fn lemma_comma_free(s: Seq<char>)
    requires
        forall|i: int| 0 <= i < s.len() ==> #[trigger] s[i] != ',',
    ensures
        comma_to_dot(s) == s,
{
    assert(comma_to_dot(s) =~= s);
}

proof fn lemma_ts_dots(ms: int)
    ensures
        comma_to_dot(ts(ms, ',')) == ts(ms, '.'),
{
    law_ts_reads_back(ms, ',');
    law_vtt_stamp_is_srt_stamp(ms);
    let t = ts(ms, ',');
    let n = t.len() as int;
    assert forall|i: int| 0 <= i < n && i != n - 4 implies #[trigger] t[i] != ',' by {
        if i < n - 10 {
            assert(is_digit(t.take(n - 10)[i]));
        } else if n - 9 <= i < n - 7 {
            assert(is_digit(t.subrange(n - 9, n - 7)[i - (n - 9)]));
        } else if n - 6 <= i < n - 4 {
            assert(is_digit(t.subrange(n - 6, n - 4)[i - (n - 6)]));
        } else if i >= n - 3 {
            assert(is_digit(t.skip(n - 3)[i - (n - 3)]));
        }
    }
    assert(comma_to_dot(t) =~= t.update(n - 4, '.'));
}

proof fn lemma_cue_dots(i: int, s: Seg)
    requires
        i >= 0,
        !s.ar@.contains(','),
    ensures
        comma_to_dot(cue_ar(i, s, ',')) == cue_ar(i, s, '.'),
{
    let d = dec((i + 1) as nat);
    lemma_dec_digits((i + 1) as nat);
    assert forall|j: int| 0 <= j < d.len() implies #[trigger] d[j] != ',' by {
        assert(is_digit(d[j]));
    }
    lemma_comma_free(d);
    assert forall|j: int| 0 <= j < s.ar@.len() implies #[trigger] s.ar@[j] != ',' by {
        if s.ar@[j] == ',' {
            assert(s.ar@.contains(','));
        }
    }
    lemma_comma_free(s.ar@);
    let nl = seq!['\n'];
    let nl2 = seq!['\n', '\n'];
    assert(comma_to_dot(nl) =~= nl);
    assert(comma_to_dot(nl2) =~= nl2);
    assert(comma_to_dot(arrow()) =~= arrow());
    lemma_ts_dots(s.t0 as int);
    lemma_ts_dots(s.t1 as int);
    let t0 = ts(s.t0 as int, ',');
    let t1 = ts(s.t1 as int, ',');
    lemma_comma_to_dot_add(d, nl);
    lemma_comma_to_dot_add(d + nl, t0);
    lemma_comma_to_dot_add(d + nl + t0, arrow());
    lemma_comma_to_dot_add(d + nl + t0 + arrow(), t1);
    lemma_comma_to_dot_add(d + nl + t0 + arrow() + t1, nl);
    lemma_comma_to_dot_add(cue_head(i, s, ','), s.ar@);
    lemma_comma_to_dot_add(cue_head(i, s, ',') + s.ar@, nl2);
}

proof fn lemma_vtt_cues_dots(segs: Seq<Seg>)
    requires
        forall|i: int| 0 <= i < segs.len() ==> !(#[trigger] segs[i]).ar@.contains(','),
    ensures
        vtt_cues_spec(segs) == comma_to_dot(srt_ar_spec(segs)),
    decreases segs.len(),
{
    if segs.len() == 0 {
        assert(comma_to_dot(seq![]) =~= Seq::<char>::empty());
    } else {
        let init = segs.drop_last();
        assert forall|i: int| 0 <= i < init.len() implies !(#[trigger] init[i]).ar@.contains(',') by {
            assert(init[i] == segs[i]);
        }
        lemma_vtt_cues_dots(init);
        lemma_comma_to_dot_add(srt_ar_spec(init), cue_ar(segs.len() - 1, segs.last(), ','));
        lemma_cue_dots(segs.len() - 1, segs.last());
    }
}

/// Where no Arabic line holds a comma, the WebVTT text is the header, then
/// the SubRip text with every `,` made a `.`: the same cues, with `.`
/// before the milliseconds.
pub proof fn law_vtt_is_srt_with_dots(segs: Seq<Seg>)
    requires
        forall|i: int| 0 <= i < segs.len() ==> !(#[trigger] segs[i]).ar@.contains(','),
    ensures
        vtt_ar_spec(segs) == vtt_header() + comma_to_dot(srt_ar_spec(segs)),
{
    lemma_vtt_cues_dots(segs);
}

/// The plain-text export has no empty line and no line with surrounding
/// white space.
pub proof fn law_text_lines_clean(segs: Seq<Seg>, arabic: bool)
    ensures
        forall|i: int|
            0 <= i < text_lines(segs, arabic).len() ==> {
                let l = #[trigger] text_lines(segs, arabic)[i];
                l.len() > 0 && trim(l) == l
            },
    decreases segs.len(),
{
    if segs.len() > 0 {
        law_text_lines_clean(segs.drop_last(), arabic);
        let t = trim(
            if arabic {
                segs.last().ar@
            } else {
                segs.last().tr@
            },
        );
        lemma_trim_idempotent(
            if arabic {
                segs.last().ar@
            } else {
                segs.last().tr@
            },
        );
        let prev = text_lines(segs.drop_last(), arabic);
        assert forall|i: int| 0 <= i < text_lines(segs, arabic).len() implies {
            let l = #[trigger] text_lines(segs, arabic)[i];
            l.len() > 0 && trim(l) == l
        } by {
            if i < prev.len() {
                assert(text_lines(segs, arabic)[i] == prev[i]);
            }
        }
    }
}

/// Each subtitle line gives one numbered SubRip cue, in order.
pub proof fn law_srt_one_cue_per_line(segs: Seq<Seg>, s: Seg)
    ensures
        srt_ar_spec(segs.push(s)) == srt_ar_spec(segs) + cue_ar(segs.len() as int, s, ','),
        srt_bi_spec(segs.push(s)) == srt_bi_spec(segs) + cue_bi(segs.len() as int, s),
        vtt_ar_spec(segs.push(s)) == vtt_ar_spec(segs) + cue_ar(segs.len() as int, s, '.'),
{
    assert(segs.push(s).drop_last() =~= segs);
}

} // verus!
