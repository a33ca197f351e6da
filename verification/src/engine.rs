//! Decisions of the engine process: backend detection from captured
//! whisper.cpp log lines, the capabilities line, the command line of the
//! `--cli` mode, and the shaping of whisper's output.

use vstd::prelude::*;

use crate::model::{kind_parse, Kind, RawSeg};
use crate::text::{
    chars_of, contains, dec, matches_at, owned, dec_int, find, find_exec, join, push_dec, push_int, push_str,
    string_of, string_of_range, trim, trim_bounds, trim_str, views,
};

verus! {

// ---------------------------------------------------------------------------
// whisper.cpp log capture and backend report
// ---------------------------------------------------------------------------

/// Most log lines kept for the backend report.
pub const MAX_CAPTURED: usize = 256;

/// A whisper.cpp/ggml log line worth keeping for the backend report.
pub open spec fn interesting(line: Seq<char>) -> bool {
    contains(line, "Vulkan"@) || contains(line, "vulkan"@) || contains(line, "GPU"@) || contains(
        line,
        "backend"@,
    )
}

fn contains_lit(v: &Vec<char>, lit: &str) -> (r: bool)
    ensures
        r == contains(v@, lit@),
{
    find_exec(v, &chars_of(lit)).is_some()
}

pub fn is_interesting(line: &str) -> (r: bool)
    ensures
        r == interesting(line@),
{
    let v = chars_of(line);
    contains_lit(&v, "Vulkan") || contains_lit(&v, "vulkan") || contains_lit(&v, "GPU")
        || contains_lit(&v, "backend")
}

/// Keeps an interesting log line, as long as fewer than `MAX_CAPTURED`
/// lines are kept.
pub fn record_log_line(captured: &mut Vec<String>, line: String)
    ensures
        interesting(line@) && old(captured)@.len() < MAX_CAPTURED ==> final(captured)@ == old(
            captured,
        )@.push(line),
        !(interesting(line@) && old(captured)@.len() < MAX_CAPTURED) ==> final(captured)@ == old(
            captured,
        )@,
        old(captured)@.len() <= MAX_CAPTURED ==> final(captured)@.len() <= MAX_CAPTURED,
{
    if is_interesting(line.as_str()) && captured.len() < MAX_CAPTURED {
        captured.push(line);
    }
}

/// Some captured line shows that whisper.cpp ran on a GPU backend.
pub open spec fn used_gpu(lines: Seq<Seq<char>>) -> bool {
    exists|i: int|
        0 <= i < lines.len() && (contains(#[trigger] lines[i], "using Vulkan backend"@)
            || contains(lines[i], "using CUDA backend"@))
}

pub open spec fn mentions_vulkan(lines: Seq<Seq<char>>) -> bool {
    exists|i: int| 0 <= i < lines.len() && contains(#[trigger] lines[i], "Vulkan"@)
}

/// Device names ggml logs as "... devices: <names>", in order.
pub open spec fn device_names(lines: Seq<Seq<char>>) -> Seq<Seq<char>>
    decreases lines.len(),
{
    if lines.len() == 0 {
        seq![]
    } else {
        let init = device_names(lines.drop_last());
        let l = lines.last();
        match find(l, "devices:"@) {
            Some(k) => {
                let rest = trim(l.skip(k + 8));
                if rest.len() > 0 {
                    init.push(rest)
                } else {
                    init
                }
            },
            None => init,
        }
    }
}

/// What `backend_report` says for the captured lines.
pub open spec fn backend_report_spec(lines: Seq<Seq<char>>) -> Seq<char> {
    if used_gpu(lines) {
        let names = device_names(lines);
        "GPU (Vulkan)"@ + if names.len() == 0 {
            Seq::<char>::empty()
        } else {
            " - "@ + join(names, "; "@)
        }
    } else if mentions_vulkan(lines) {
        "CPU (Vulkan backend compiled but GPU init failed or no usable device)"@
    } else {
        "CPU"@
    }
}

/// Human-readable report of the compute backend that actually ran, from
/// the captured whisper.cpp/ggml log lines (none captured: "CPU").
pub fn backend_report(captured: &Vec<String>) -> (r: String)
    ensures
        r@ == backend_report_spec(views(captured@)),
{
    let ghost ls = views(captured@);
    let mut gpu = false;
    let mut vk = false;
    let mut names: Vec<String> = Vec::new();
    let mut i: usize = 0;
    while i < captured.len()
        invariant
            i <= captured.len(),
            ls == views(captured@),
            gpu == used_gpu(ls.take(i as int)),
            vk == mentions_vulkan(ls.take(i as int)),
            views(names@) == device_names(ls.take(i as int)),
        decreases captured.len() - i,
    {
        let v = chars_of(captured[i].as_str());
        let ghost pre = ls.take(i as int);
        let ghost next = ls.take(i + 1);
        proof {
            assert(next.drop_last() =~= pre);
            assert(next.last() == v@);
            assert(ls[i as int] == v@);
        }
        let g = contains_lit(&v, "using Vulkan backend") || contains_lit(&v, "using CUDA backend");
        let m = contains_lit(&v, "Vulkan");
        proof {
            if g {
                assert(next[i as int] == v@);
            }
            if gpu {
                let w = choose|w: int|
                    0 <= w < pre.len() && (contains(#[trigger] pre[w], "using Vulkan backend"@)
                        || contains(pre[w], "using CUDA backend"@));
                assert(next[w] == pre[w]);
            }
            if !gpu && !g {
                assert forall|w: int| 0 <= w < next.len() implies !(contains(
                    #[trigger] next[w],
                    "using Vulkan backend"@,
                ) || contains(next[w], "using CUDA backend"@)) by {
                    if w < i {
                        assert(next[w] == pre[w]);
                    }
                }
            }
            if m {
                assert(next[i as int] == v@);
            }
            if vk {
                let w = choose|w: int| 0 <= w < pre.len() && contains(#[trigger] pre[w], "Vulkan"@);
                assert(next[w] == pre[w]);
            }
            if !vk && !m {
                assert forall|w: int| 0 <= w < next.len() implies !contains(
                    #[trigger] next[w],
                    "Vulkan"@,
                ) by {
                    if w < i {
                        assert(next[w] == pre[w]);
                    }
                }
            }
        }
        gpu = gpu || g;
        vk = vk || m;
        let pat = chars_of("devices:");
        match find_exec(&v, &pat) {
            Some(k) => {
                proof {
                    crate::text::lemma_find_from(v@, pat@, 0);
                    reveal_strlit("devices:");
                    assert(pat@.len() == 8);
                    assert(matches_at(v@, pat@, k as int));
                    assert(k + 8 <= v@.len());
                }
                let vl = v.len();
                assert(k + 8 <= vl);
                let rest = string_of_range(&v, k + 8, vl);
                assert(rest@ =~= v@.skip(k + 8));
                let r = trim_str(rest.as_str());
                if !r.as_str().is_empty() {
                    names.push(r);
                    assert(views(names@) =~= views(names@.drop_last()).push(r@));
                }
            },
            None => {},
        }
        i += 1;
    }
    assert(ls.take(captured.len() as int) =~= ls);
    if gpu {
        let mut out = owned("GPU (Vulkan)");
        if names.len() > 0 {
            push_str(&mut out, " - ");
            let j = crate::text::join_strings(&names, "; ");
            push_str(&mut out, j.as_str());
            assert(out@ =~= "GPU (Vulkan)"@ + (" - "@ + join(views(names@), "; "@)));
        } else {
            assert(out@ =~= "GPU (Vulkan)"@ + Seq::<char>::empty());
        }
        out
    } else if vk {
        owned("CPU (Vulkan backend compiled but GPU init failed or no usable device)")
    } else {
        owned("CPU")
    }
}

// ---------------------------------------------------------------------------
// GPU use and capabilities
// ---------------------------------------------------------------------------

/// Whether whisper should attempt GPU init: only in a build with the Vulkan
/// backend, when `TARJAMA_NO_GPU` is not "1" and the device probe found at
/// least one device.
pub fn should_use_gpu(vulkan_compiled: bool, no_gpu: Option<&str>, devices: u32) -> (r: bool)
    ensures
        r == (vulkan_compiled && !(no_gpu matches Some(v) && v@ == "1"@) && devices >= 1),
{
    if !vulkan_compiled {
        return false;
    }
    match no_gpu {
        Some(v) => {
            let c = chars_of(v);
            let one = chars_of("1");
            if crate::model::eq_chars(&c, &one) {
                return false;
            }
        },
        None => {},
    }
    devices >= 1
}

/// `(vulkan_compiled, device_count, device_names)` for the capabilities
/// line; a build without the Vulkan backend reports `(0, 0, "")`.
pub fn vulkan_info(vulkan_compiled: bool, probe: (u32, String)) -> (r: (u8, u32, String))
    ensures
        vulkan_compiled ==> r.0 == 1 && r.1 == probe.0 && r.2@ == probe.1@,
        !vulkan_compiled ==> r.0 == 0 && r.1 == 0 && r.2@.len() == 0,
{
    if vulkan_compiled {
        (1, probe.0, probe.1)
    } else {
        (0, 0, String::new())
    }
}

/// Compile-time SIMD flags of the linked whisper.cpp (ggml).
pub struct Caps {
    pub sse3: i32,
    pub avx: i32,
    pub avx2: i32,
    pub fma: i32,
    pub f16c: i32,
    pub avx512: i32,
}

pub open spec fn caps_line_spec(
    version: Seq<char>,
    c: Caps,
    vk: u8,
    devices: u32,
    names: Seq<char>,
) -> Seq<char> {
    "engine v"@ + version + " compiled-flags:"@ + " sse3="@ + dec_int(c.sse3 as int) + " avx="@
        + dec_int(c.avx as int) + " avx2="@ + dec_int(c.avx2 as int) + " fma="@ + dec_int(
        c.fma as int,
    ) + " f16c="@ + dec_int(c.f16c as int) + " avx512="@ + dec_int(c.avx512 as int)
        + " vulkan="@ + dec(vk as nat) + " vulkan-devices="@ + dec(devices as nat)
        + " vulkan-gpus="@ + if names.len() == 0 {
        "none"@
    } else {
        names
    }
}

fn push_flag(out: &mut String, name: &str, v: i32)
    ensures
        final(out)@ == old(out)@ + name@ + dec_int(v as int),
{
    push_str(out, name);
    push_int(out, v as i64);
}

/// The engine's capabilities line (printed by `--capabilities`, parsed by
/// the GUI).
pub fn caps_line(version: &str, c: &Caps, info: (u8, u32, String)) -> (r: String)
    ensures
        r@ == caps_line_spec(version@, *c, info.0, info.1, info.2@),
{
    let mut r = owned("engine v");
    push_str(&mut r, version);
    push_str(&mut r, " compiled-flags:");
    let ghost a = r@;
    push_flag(&mut r, " sse3=", c.sse3);
    push_flag(&mut r, " avx=", c.avx);
    push_flag(&mut r, " avx2=", c.avx2);
    push_flag(&mut r, " fma=", c.fma);
    push_flag(&mut r, " f16c=", c.f16c);
    push_flag(&mut r, " avx512=", c.avx512);
    let ghost b = r@;
    push_str(&mut r, " vulkan=");
    push_dec(&mut r, info.0 as u64);
    push_str(&mut r, " vulkan-devices=");
    push_dec(&mut r, info.1 as u64);
    push_str(&mut r, " vulkan-gpus=");
    if info.2.as_str().is_empty() {
        push_str(&mut r, "none");
    } else {
        push_str(&mut r, info.2.as_str());
    }
    assert(r@ =~= caps_line_spec(version@, *c, info.0, info.1, info.2@));
    r
}

/// The engine's first protocol line (its banner), printed as a log event.
pub open spec fn announce_spec(version: Seq<char>, variant: Seq<char>, caps: Seq<char>) -> Seq<
    char,
> {
    "Tarjama engine v"@ + version + " ("@ + variant + ") | "@ + caps
}

pub fn announce(version: &str, variant: &str, caps: &str) -> (r: String)
    ensures
        r@ == announce_spec(version@, variant@, caps@),
{
    let mut r = owned("Tarjama engine v");
    push_str(&mut r, version);
    push_str(&mut r, " (");
    push_str(&mut r, variant);
    push_str(&mut r, ") | ");
    push_str(&mut r, caps);
    assert(r@ =~= announce_spec(version@, variant@, caps@));
    r
}

// ---------------------------------------------------------------------------
// ffmpeg
// ---------------------------------------------------------------------------

/// The last line of `s` (`str::lines`), "" when it has none.
pub open spec fn last_line(s: Seq<char>) -> Seq<char> {
    let ls = crate::supervisor::lines(s);
    if ls.len() == 0 {
        Seq::empty()
    } else {
        ls.last()
    }
}

/// The error when ffmpeg exits with a failure: its exit code and the last
/// line of its error output, if that is not empty.
pub open spec fn ffmpeg_failure_spec(code: Option<i32>, stderr: Seq<char>) -> Seq<char> {
    let d = last_line(stderr);
    "ffmpeg failed (exit "@ + crate::text::debug_code(code) + ")"@ + if d.len() == 0 {
        Seq::<char>::empty()
    } else {
        ": "@ + d
    }
}

pub fn ffmpeg_failure(code: Option<i32>, stderr: &str) -> (r: String)
    ensures
        r@ == ffmpeg_failure_spec(code, stderr@),
{
    let ls = crate::supervisor::lines_exec(&chars_of(stderr));
    let mut r = owned("ffmpeg failed (exit ");
    crate::text::push_debug_code(&mut r, code);
    push_str(&mut r, ")");
    let ghost head = r@;
    if ls.len() > 0 {
        let n = ls.len();
        assert(crate::text::vviews(ls@)[n - 1] == ls@[n - 1]@);
        if ls[n - 1].len() > 0 {
            push_str(&mut r, ": ");
            crate::text::push_chars(&mut r, &ls[n - 1]);
            assert(r@ =~= head + (": "@ + last_line(stderr@)));
        } else {
            assert(r@ =~= head + Seq::<char>::empty());
        }
    } else {
        assert(r@ =~= head + Seq::<char>::empty());
    }
    r
}

// ---------------------------------------------------------------------------
// whisper output
// ---------------------------------------------------------------------------

/// Thread count for whisper: the job's positive override, else the
/// available parallelism (2 when unknown) clamped to 1..=8.
pub open spec fn whisper_threads_spec(n_override: i32, available: Option<usize>) -> i32 {
    if n_override > 0 {
        n_override
    } else {
        let n: i32 = match available {
            Some(a) => a as i32,
            None => 2,
        };
        if n < 1 {
            1
        } else if n > 8 {
            8
        } else {
            n
        }
    }
}

pub fn whisper_threads(n_override: i32, available: Option<usize>) -> (r: i32)
    ensures
        r == whisper_threads_spec(n_override, available),
        1 <= r,
{
    if n_override > 0 {
        return n_override;
    }
    let n: i32 = match available {
        Some(a) => #[verifier::truncate] (a as i32),
        None => 2,
    };
    if n < 1 {
        1
    } else if n > 8 {
        8
    } else {
        n
    }
}

/// The recognition prompt: the trimmed context, unless it is empty.
pub fn initial_prompt(context: &str) -> (r: Option<String>)
    ensures
        r matches Some(p) ==> p@ == trim(context@) && p@.len() > 0,
        r is None ==> trim(context@).len() == 0,
{
    let t = trim_str(context);
    if t.as_str().is_empty() {
        None
    } else {
        Some(t)
    }
}

/// Largest centisecond time that converts to milliseconds in an `i64`.
pub const MAX_CENTIS: i64 = 922337203685477580;

/// The segments of a transcription, from whisper's `(t0, t1, text)` with
/// times in centiseconds: texts trimmed, empty ones dropped, times in ms.
pub open spec fn raw_segments(segs: Seq<(i64, i64, Seq<char>)>) -> Seq<(i64, i64, Seq<char>)>
    decreases segs.len(),
{
    if segs.len() == 0 {
        seq![]
    } else {
        let (t0, t1, text) = segs.last();
        let t = trim(text);
        if t.len() == 0 {
            raw_segments(segs.drop_last())
        } else {
            raw_segments(segs.drop_last()).push(((t0 * 10) as i64, (t1 * 10) as i64, t))
        }
    }
}

pub open spec fn whisper_v(v: Seq<(i64, i64, String)>) -> Seq<(i64, i64, Seq<char>)> {
    v.map_values(|x: (i64, i64, String)| (x.0, x.1, x.2@))
}

pub open spec fn raw_v(v: Seq<RawSeg>) -> Seq<(i64, i64, Seq<char>)> {
    v.map_values(|r: RawSeg| (r.t0, r.t1, r.text@))
}

pub fn collect_segments(segs: &Vec<(i64, i64, String)>) -> (r: Vec<RawSeg>)
    requires
        forall|k: int|
            0 <= k < segs@.len() && trim((#[trigger] segs@[k]).2@).len() > 0 ==> -MAX_CENTIS
                <= segs@[k].0 <= MAX_CENTIS && -MAX_CENTIS <= segs@[k].1 <= MAX_CENTIS,
    ensures
        raw_v(r@) == raw_segments(whisper_v(segs@)),
{
    let mut out: Vec<RawSeg> = Vec::new();
    let mut i: usize = 0;
    while i < segs.len()
        invariant
            i <= segs.len(),
            forall|k: int|
                0 <= k < segs@.len() && trim((#[trigger] segs@[k]).2@).len() > 0 ==> -MAX_CENTIS
                    <= segs@[k].0 <= MAX_CENTIS && -MAX_CENTIS <= segs@[k].1 <= MAX_CENTIS,
            raw_v(out@) == raw_segments(whisper_v(segs@).take(i as int)),
        decreases segs.len() - i,
    {
        let t = trim_str(segs[i].2.as_str());
        proof {
            let w = whisper_v(segs@).take(i + 1);
            assert(w.drop_last() =~= whisper_v(segs@).take(i as int));
            assert(w.last() == (segs@[i as int].0, segs@[i as int].1, segs@[i as int].2@));
        }
        if !t.as_str().is_empty() {
            let r = RawSeg { t0: segs[i].0 * 10, t1: segs[i].1 * 10, text: t };
            out.push(r);
            assert(raw_v(out@) =~= raw_v(out@.drop_last()).push((r.t0, r.t1, r.text@)));
        }
        i += 1;
    }
    assert(whisper_v(segs@).take(segs.len() as int) =~= whisper_v(segs@));
    out
}

// ---------------------------------------------------------------------------
// selftest checks
// ---------------------------------------------------------------------------

// ---------------------------------------------------------------------------
// selftest
// ---------------------------------------------------------------------------

/// The selftest's sample needs half a second of audio at 16 kHz.
pub const SELFTEST_MIN_SAMPLES: usize = 8000;

/// The recognised text the selftest translates: the segments' texts joined
/// by spaces, trimmed.
pub open spec fn selftest_text_spec(texts: Seq<Seq<char>>) -> Seq<char> {
    trim(join(texts, seq![' ']))
}

/// The recognised text the selftest translates (see `selftest_text_spec`).
pub fn selftest_text(texts: &Vec<String>) -> (r: String)
    ensures
        r@ == selftest_text_spec(views(texts@)),
{
    let j = crate::text::join_strings(texts, " ");
    proof {
        reveal_strlit(" ");
    }
    assert(" "@ =~= seq![' ']);
    trim_str(j.as_str())
}

/// The selftest heard speech: at least five characters were recognised.
pub fn selftest_heard_speech(text: &str) -> (r: bool)
    ensures
        r == (text@.len() >= 5),
{
    let v = chars_of(text);
    v.len() >= 5
}

/// Some character is in the Arabic block U+0600..=U+06FF.
pub open spec fn has_arabic_spec(s: Seq<char>) -> bool {
    exists|i: int| 0 <= i < s.len() && 0x600 <= (#[trigger] s[i]) as u32 <= 0x6FF
}

pub fn has_arabic(s: &str) -> (r: bool)
    ensures
        r == has_arabic_spec(s@),
{
    let v = chars_of(s);
    let mut i: usize = 0;
    while i < v.len()
        invariant
            i <= v.len(),
            v@ == s@,
            forall|k: int| 0 <= k < i ==> !(0x600 <= (#[trigger] v@[k]) as u32 <= 0x6FF),
        decreases v.len() - i,
    {
        let u = v[i] as u32;
        if 0x600 <= u && u <= 0x6FF {
            assert(0x600 <= (s@[i as int]) as u32 <= 0x6FF);
            return true;
        }
        i += 1;
    }
    false
}

// ---------------------------------------------------------------------------
// the `--cli` command line
// ---------------------------------------------------------------------------

/// `--cli` arguments: input, model, output prefix, recognition context, the
/// glossary files named (in order), and the first error met, if any.
/// Glossary files named before that error are still read, in order.
pub struct CliArgs {
    pub input: Option<String>,
    pub model: Kind,
    pub out: Option<String>,
    pub context: String,
    pub glossary_files: Vec<String>,
    pub error: Option<String>,
}

pub type CliV = (Option<Seq<char>>, Kind, Option<Seq<char>>, Seq<char>, Seq<Seq<char>>, Option<
    Seq<char>,
>);

pub open spec fn cli_v(c: CliArgs) -> CliV {
    (
        match c.input {
            Some(s) => Some(s@),
            None => None,
        },
        c.model,
        match c.out {
            Some(s) => Some(s@),
            None => None,
        },
        c.context@,
        views(c.glossary_files@),
        match c.error {
            Some(s) => Some(s@),
            None => None,
        },
    )
}

pub open spec fn takes_value(a: Seq<char>) -> bool {
    a == "--input"@ || a == "--model"@ || a == "--out"@ || a == "--context"@ || a == "--glossary"@
}

pub open spec fn unknown_arg(a: Seq<char>) -> Seq<char> {
    "unknown cli arg '"@ + a + "'"@
}

/// Parsing from index `i` in state `st`; `None` where a flag that takes a
/// value comes last: its value would be read past the end of the arguments.
pub open spec fn cli_from(args: Seq<Seq<char>>, i: int, st: CliV) -> Option<CliV>
    decreases args.len() - i,
{
    if i < 0 || i >= args.len() {
        Some(st)
    } else {
        let a = args[i];
        if !takes_value(a) {
            Some((st.0, st.1, st.2, st.3, st.4, Some(unknown_arg(a))))
        } else if i + 1 >= args.len() {
            None
        } else {
            let v = args[i + 1];
            if a == "--model"@ {
                match kind_parse(v) {
                    Ok(k) => cli_from(args, i + 2, (st.0, k, st.2, st.3, st.4, st.5)),
                    Err(e) => Some((st.0, st.1, st.2, st.3, st.4, Some(e))),
                }
            } else {
                let nst = if a == "--input"@ {
                    (Some(v), st.1, st.2, st.3, st.4, st.5)
                } else if a == "--out"@ {
                    (st.0, st.1, Some(v), st.3, st.4, st.5)
                } else if a == "--context"@ {
                    (st.0, st.1, st.2, v, st.4, st.5)
                } else {
                    (st.0, st.1, st.2, st.3, st.4.push(v), st.5)
                };
                cli_from(args, i + 2, nst)
            }
        }
    }
}

pub open spec fn cli_spec(args: Seq<Seq<char>>) -> Option<CliV> {
    cli_from(args, 0, (None, Kind::Small, None, Seq::<char>::empty(), seq![], None))
}

fn lit_eq(v: &Vec<char>, lit: &str) -> (r: bool)
    ensures
        r == (v@ == lit@),
{
    crate::model::eq_chars(v, &chars_of(lit))
}

/// Parses the `--cli` arguments (after `--cli`).
/// The command line of `--cli`, or `None` where a flag that takes a value
/// comes last (the value is missing).
pub fn try_parse_cli(args: &[String]) -> (r: Option<CliArgs>)
    ensures
        r is None <==> cli_spec(views(args@)) is None,
        r matches Some(c) ==> cli_spec(views(args@)) == Some(cli_v(c)),
{
    let ghost av = views(args@);
    let mut c = CliArgs {
        input: None,
        model: Kind::Small,
        out: None,
        context: String::new(),
        glossary_files: Vec::new(),
        error: None,
    };
    assert(cli_v(c) =~= (None, Kind::Small, None, Seq::<char>::empty(), seq![], None));
    let mut i: usize = 0;
    while i < args.len()
        invariant
            av == views(args@),
            cli_from(av, i as int, cli_v(c)) == cli_spec(av),
            c.error is None,
        decreases args.len() - i,
    {
        let a = chars_of(args[i].as_str());
        assert(av[i as int] == a@);
        let is_input = lit_eq(&a, "--input");
        let is_model = lit_eq(&a, "--model");
        let is_out = lit_eq(&a, "--out");
        let is_context = lit_eq(&a, "--context");
        let is_glossary = lit_eq(&a, "--glossary");
        if !(is_input || is_model || is_out || is_context || is_glossary) {
            let mut m = owned("unknown cli arg '");
            push_str(&mut m, args[i].as_str());
            push_str(&mut m, "'");
            c.error = Some(m);
            assert(cli_v(c) =~= (
                cli_v(c).0,
                cli_v(c).1,
                cli_v(c).2,
                cli_v(c).3,
                cli_v(c).4,
                Some(unknown_arg(a@)),
            ));
            return Some(c);
        }
        if i + 1 >= args.len() {
            return None;
        }
        let v = args[i + 1].clone();
        assert(av[i + 1] == v@);
        if is_model {
            match Kind::parse(v.as_str()) {
                Ok(k) => {
                    c.model = k;
                },
                Err(e) => {
                    c.error = Some(e);
                    return Some(c);
                },
            }
        } else if is_input {
            c.input = Some(v);
        } else if is_out {
            c.out = Some(v);
        } else if is_context {
            c.context = v;
        } else {
            let ghost before = views(c.glossary_files@);
            c.glossary_files.push(v);
            assert(views(c.glossary_files@) =~= before.push(v@));
        }
        i += 2;
    }
    Some(c)
}

/// The command line of `--cli`: `--input`, `--model`, `--out`, `--context`
/// and `--glossary`, each followed by its value; the first unknown
/// argument or bad model name is recorded in `error` and ends parsing.
pub fn parse_cli(args: &[String]) -> (r: CliArgs)
    requires
        cli_spec(views(args@)) is Some,
    ensures
        cli_spec(views(args@)) == Some(cli_v(r)),
{
    match try_parse_cli(args) {
        Some(c) => c,
        None => {
            proof {
                assert(false);
            }
            CliArgs {
                input: None,
                model: Kind::Small,
                out: None,
                context: String::new(),
                glossary_files: Vec::new(),
                error: None,
            }
        },
    }
}


/// Whisper segments with words in them, once trimmed.
pub open spec fn spoken() -> spec_fn((i64, i64, Seq<char>)) -> bool {
    |w: (i64, i64, Seq<char>)| trim(w.2).len() > 0
}

/// Each whisper segment with words gives exactly one subtitle segment, in
/// order, repeated lines included: its times in milliseconds (ten times the
/// centiseconds) and its text trimmed. Segments without words give none.
pub proof fn law_one_segment_per_spoken_line(segs: Seq<(i64, i64, Seq<char>)>)
    requires
        forall|k: int|
            0 <= k < segs.len() && trim((#[trigger] segs[k]).2).len() > 0 ==> -MAX_CENTIS
                <= segs[k].0 <= MAX_CENTIS && -MAX_CENTIS <= segs[k].1 <= MAX_CENTIS,
    ensures
        ({
            let kept = segs.filter(spoken());
            let out = raw_segments(segs);
            &&& out.len() == kept.len()
            &&& forall|k: int|
                0 <= k < out.len() ==> {
                    &&& (#[trigger] out[k]).0 == kept[k].0 * 10
                    &&& out[k].1 == kept[k].1 * 10
                    &&& out[k].2 == trim(kept[k].2)
                }
        }),
    decreases segs.len(),
{
    reveal(Seq::filter);
    if segs.len() > 0 {
        let init = segs.drop_last();
        assert forall|k: int|
            0 <= k < init.len() && trim((#[trigger] init[k]).2).len() > 0 implies -MAX_CENTIS
                <= init[k].0 <= MAX_CENTIS && -MAX_CENTIS <= init[k].1 <= MAX_CENTIS by {
            assert(init[k] == segs[k]);
        }
        law_one_segment_per_spoken_line(init);
        let w = segs.last();
        assert(w == segs[segs.len() - 1]);
        let kept = segs.filter(spoken());
        let out = raw_segments(segs);
        let kept0 = init.filter(spoken());
        let out0 = raw_segments(init);
        if trim(w.2).len() > 0 {
            assert(kept == kept0.push(w));
            assert(out == out0.push(((w.0 * 10) as i64, (w.1 * 10) as i64, trim(w.2))));
            assert forall|k: int| 0 <= k < out.len() implies {
                &&& (#[trigger] out[k]).0 == kept[k].0 * 10
                &&& out[k].1 == kept[k].1 * 10
                &&& out[k].2 == trim(kept[k].2)
            } by {
                if k < out0.len() {
                    assert(out[k] == out0[k]);
                    assert(kept[k] == kept0[k]);
                }
            }
        } else {
            assert(kept == kept0);
            assert(out == out0);
        }
    }
}

} // verus!
