//! Decisions of the GUI about its engine processes: which build to run,
//! where it lives, what to do with what it prints.

use vstd::prelude::*;

use crate::glossary::utf8_len_prefix;
use crate::model::{is_terminal_spec, EngineEvent};
use crate::text::{
    chars_of, dec, dec_int, digit, is_ws, join, push_chars, push_str, split_on, starts_with, string_of, string_of_range,
    utf8_len, vviews, words, words_exec,
};

verus! {

/// File name suffix of executables on the target.
pub fn exe_suffix(windows: bool) -> (r: &'static str)
    ensures
        windows ==> r@ == ".exe"@,
        !windows ==> r@ == ""@,
{
    if windows {
        ".exe"
    } else {
        ""
    }
}

pub open spec fn next_variant_spec(v: Seq<char>) -> Option<Seq<char>> {
    if v == "gpu"@ {
        Some("fast"@)
    } else if v == "fast"@ {
        Some("safe"@)
    } else {
        None
    }
}

fn lit_eq(s: &str, lit: &str) -> (r: bool)
    ensures
        r == (s@ == lit@),
{
    crate::model::eq_chars(&chars_of(s), &chars_of(lit))
}

/// Downgrade chain used whenever a build fails to start or crashes:
/// gpu, then fast, then safe, then nothing.
pub fn next_variant(variant: &str) -> (r: Option<&'static str>)
    ensures
        match next_variant_spec(variant@) {
            Some(n) => r matches Some(s) && s@ == n,
            None => r is None,
        },
{
    if lit_eq(variant, "gpu") {
        Some("fast")
    } else if lit_eq(variant, "fast") {
        Some("safe")
    } else {
        None
    }
}

/// The downgrade chain never stays on a build and ends after at most three
/// steps, whatever build it starts from.
pub proof fn law_downgrade_terminates(v: Seq<char>)
    ensures
        next_variant_spec(v) != Some(v),
        next_variant_spec(v) matches Some(a) ==> (next_variant_spec(a) matches Some(b) ==> (
        next_variant_spec(b) is None)),
{
    reveal_strlit("gpu");
    reveal_strlit("fast");
    reveal_strlit("safe");
    assert("fast"@[0] != "gpu"@[0]);
    assert("safe"@[0] != "gpu"@[0]);
    assert("safe"@[0] != "fast"@[0]);
}

/// The build for this machine, best first: the GPU build when its probe
/// found a Vulkan device, the AVX2+FMA+F16C build when the CPU has those,
/// else the plain SSE2 build.
pub fn preferred_variant(gpu_devices: Option<u32>, fast_cpu: bool) -> (r: &'static str)
    ensures
        (gpu_devices matches Some(n) && n >= 1) ==> r@ == "gpu"@,
        !(gpu_devices matches Some(n) && n >= 1) && fast_cpu ==> r@ == "fast"@,
        !(gpu_devices matches Some(n) && n >= 1) && !fast_cpu ==> r@ == "safe"@,
{
    match gpu_devices {
        Some(n) => {
            if n >= 1 {
                return "gpu";
            }
        },
        None => {},
    }
    if fast_cpu {
        "fast"
    } else {
        "safe"
    }
}

/// Environment variable that may name a build's executable.
pub fn engine_env_key(variant: &str) -> (r: &'static str)
    ensures
        variant@ == "gpu"@ ==> r@ == "TARJAMA_ENGINE_GPU"@,
        variant@ == "fast"@ ==> r@ == "TARJAMA_ENGINE_FAST"@,
        variant@ != "gpu"@ && variant@ != "fast"@ ==> r@ == "TARJAMA_ENGINE_SAFE"@,
{
    proof {
        reveal_strlit("gpu");
        reveal_strlit("fast");
        assert("fast"@[0] != "gpu"@[0]);
    }
    if lit_eq(variant, "gpu") {
        "TARJAMA_ENGINE_GPU"
    } else if lit_eq(variant, "fast") {
        "TARJAMA_ENGINE_FAST"
    } else {
        "TARJAMA_ENGINE_SAFE"
    }
}

/// File name of a build's executable next to the GUI.
pub fn engine_file_name(variant: &str, suffix: &str) -> (r: String)
    ensures
        r@ == "tarjama-engine-"@ + variant@ + suffix@,
{
    let mut r = String::new();
    push_str(&mut r, "tarjama-engine-");
    push_str(&mut r, variant);
    push_str(&mut r, suffix);
    assert(r@ =~= "tarjama-engine-"@ + variant@ + suffix@);
    r
}

/// The message when a build's executable cannot be found.
pub fn engine_not_found_message(variant: &str, suffix: &str) -> (r: String)
    ensures
        r@ == "engine not found: tarjama-engine-"@ + variant@ + suffix@
            + " must sit next to tarjama"@ + suffix@,
{
    let mut r = String::new();
    push_str(&mut r, "engine not found: tarjama-engine-");
    push_str(&mut r, variant);
    push_str(&mut r, suffix);
    push_str(&mut r, " must sit next to tarjama");
    push_str(&mut r, suffix);
    assert(r@ =~= "engine not found: tarjama-engine-"@ + variant@ + suffix@
        + " must sit next to tarjama"@ + suffix@);
    r
}

// ---------------------------------------------------------------------------
// the engine's capabilities line
// ---------------------------------------------------------------------------

pub open spec fn is_digit(c: char) -> bool {
    '0' <= c && c <= '9'
}

pub open spec fn digit_value(c: char) -> int {
    (c as u32) - ('0' as u32)
}

/// Value of a string of decimal digits.
pub open spec fn digits_value(d: Seq<char>) -> int
    decreases d.len(),
{
    if d.len() == 0 {
        0
    } else {
        10 * digits_value(d.drop_last()) + digit_value(d.last())
    }
}

/// `str::parse::<u32>`: an optional '+', then one or more decimal digits,
/// and a value that fits.
pub open spec fn digits_part(s: Seq<char>) -> Seq<char> {
    if s.len() > 0 && s[0] == '+' {
        s.skip(1)
    } else {
        s
    }
}

pub open spec fn parse_u32_spec(s: Seq<char>) -> Option<u32> {
    let d = digits_part(s);
    if d.len() == 0 || exists|i: int| 0 <= i < d.len() && !is_digit(#[trigger] d[i]) {
        None
    } else if digits_value(d) > u32::MAX {
        None
    } else {
        Some(digits_value(d) as u32)
    }
}

pub fn parse_u32(v: &Vec<char>) -> (r: Option<u32>)
    ensures
        r == parse_u32_spec(v@),
{
    let start: usize = if v.len() > 0 && v[0] == '+' {
        1
    } else {
        0
    };
    let ghost d = digits_part(v@);
    assert(d =~= v@.skip(start as int));
    if start == v.len() {
        return None;
    }
    let mut val: u64 = 0;
    let mut i: usize = start;
    while i < v.len()
        invariant
            start <= i <= v.len(),
            d == v@.skip(start as int),
            d == digits_part(v@),
            forall|k: int| 0 <= k < i - start ==> is_digit(#[trigger] d[k]),
            val as int == if digits_value(d.take(i - start)) > u32::MAX {
                u32::MAX + 1
            } else {
                digits_value(d.take(i - start))
            },
        decreases v.len() - i,
    {
        let c = v[i];
        if !('0' <= c && c <= '9') {
            assert(d[i - start] == c);
            assert(!is_digit(d[i - start]));
            assert(d.len() > 0);
            assert(exists|k: int| 0 <= k < d.len() && !is_digit(#[trigger] d[k]));
            return None;
        }
        let dv = (c as u32 - '0' as u32) as u64;
        proof {
            let t = d.take(i - start + 1);
            assert(t.drop_last() =~= d.take(i - start));
            assert(t.last() == c);
            lemma_digits_value_nonneg(d.take(i - start));
        }
        if val > 0xFFFF_FFFF {
            val = 0x1_0000_0000;
        } else {
            let nv = 10 * val + dv;
            val = if nv > 0xFFFF_FFFF {
                0x1_0000_0000
            } else {
                nv
            };
        }
        i += 1;
    }
    assert(d.take(v.len() - start) =~= d);
    if val > 0xFFFF_FFFF {
        None
    } else {
        Some(val as u32)
    }
}

proof fn lemma_digits_value_nonneg(d: Seq<char>)
    requires
        forall|k: int| 0 <= k < d.len() ==> is_digit(#[trigger] d[k]),
    ensures
        digits_value(d) >= 0,
    decreases d.len(),
{
    if d.len() > 0 {
        assert forall|k: int| 0 <= k < d.drop_last().len() implies is_digit(
            #[trigger] d.drop_last()[k],
        ) by {
            assert(d.drop_last()[k] == d[k]);
        }
        lemma_digits_value_nonneg(d.drop_last());
        assert(is_digit(d[d.len() - 1]));
    }
}

/// `s.trim_start_matches(p)` for a non-empty `p`.
pub open spec fn strip_all(s: Seq<char>, p: Seq<char>) -> Seq<char>
    decreases s.len(),
{
    if p.len() > 0 && starts_with(s, p) {
        strip_all(s.skip(p.len() as int), p)
    } else {
        s
    }
}

/// The first token with prefix `p`, from index `i` on.
pub open spec fn first_prefixed(ts: Seq<Seq<char>>, p: Seq<char>, i: int) -> Option<Seq<char>>
    decreases ts.len() - i,
{
    if i < 0 || i >= ts.len() {
        None
    } else if starts_with(ts[i], p) {
        Some(ts[i])
    } else {
        first_prefixed(ts, p, i + 1)
    }
}

/// What the GUI reads from a capabilities line: the device count of the
/// first "vulkan-devices=" token (which must parse), and the first
/// "vulkan-gpus=" token without that prefix ("" when there is none).
pub open spec fn parse_caps_spec(s: Seq<char>) -> Option<(u32, Seq<char>)> {
    let ts = words(s);
    match first_prefixed(ts, "vulkan-devices="@, 0) {
        None => None,
        Some(t) => match parse_u32_spec(t.skip(15)) {
            None => None,
            Some(n) => Some(
                (
                    n,
                    match first_prefixed(ts, "vulkan-gpus="@, 0) {
                        Some(g) => strip_all(g, "vulkan-gpus="@),
                        None => Seq::<char>::empty(),
                    },
                ),
            ),
        },
    }
}

fn starts_with_exec(v: &Vec<char>, p: &Vec<char>) -> (r: bool)
    ensures
        r == starts_with(v@, p@),
{
    if p.len() > v.len() {
        return false;
    }
    let mut k: usize = 0;
    while k < p.len()
        invariant
            k <= p.len() <= v.len(),
            forall|m: int| 0 <= m < k ==> v@[m] == p@[m],
        decreases p.len() - k,
    {
        if v[k] != p[k] {
            assert(v@.take(p.len() as int)[k as int] != p@[k as int]);
            return false;
        }
        k += 1;
    }
    assert(v@.take(p.len() as int) =~= p@);
    true
}

fn first_prefixed_exec(ts: &Vec<Vec<char>>, p: &Vec<char>) -> (r: Option<usize>)
    ensures
        r matches Some(i) ==> i < ts@.len() && first_prefixed(vviews(ts@), p@, 0) == Some(
            ts@[i as int]@,
        ),
        r is None ==> first_prefixed(vviews(ts@), p@, 0) is None,
{
    let mut i: usize = 0;
    while i < ts.len()
        invariant
            i <= ts.len(),
            first_prefixed(vviews(ts@), p@, i as int) == first_prefixed(vviews(ts@), p@, 0),
        decreases ts.len() - i,
    {
        assert(vviews(ts@)[i as int] == ts@[i as int]@);
        if starts_with_exec(&ts[i], p) {
            return Some(i);
        }
        i += 1;
    }
    None
}

fn strip_all_exec(v: &Vec<char>, p: &Vec<char>) -> (r: Vec<char>)
    requires
        p@.len() > 0,
    ensures
        r@ == strip_all(v@, p@),
{
    let mut i: usize = 0;
    let mut cur = sub_vec(v, 0, v.len());
    assert(v@.skip(0) =~= v@);
    while starts_with_exec(&cur, p)
        invariant
            p@.len() > 0,
            i <= v.len(),
            cur@ == v@.skip(i as int),
            strip_all(cur@, p@) == strip_all(v@, p@),
        decreases v.len() - i,
    {
        assert(cur@.skip(p@.len() as int) =~= v@.skip(i + p@.len()));
        i = i + p.len();
        cur = sub_vec(v, i, v.len());
        assert(cur@ =~= v@.skip(i as int));
    }
    cur
}

fn sub_vec(v: &Vec<char>, i: usize, j: usize) -> (r: Vec<char>)
    requires
        i <= j <= v.len(),
    ensures
        r@ == v@.subrange(i as int, j as int),
{
    let mut r: Vec<char> = Vec::new();
    let mut k = i;
    while k < j
        invariant
            i <= k <= j <= v.len(),
            r@ == v@.subrange(i as int, k as int),
        decreases j - k,
    {
        r.push(v[k]);
        k += 1;
        assert(r@ =~= v@.subrange(i as int, k as int));
    }
    r
}

/// Reads the device count and names from an engine's capabilities line.
pub fn parse_caps_output(s: &str) -> (r: Option<(u32, String)>)
    ensures
        match parse_caps_spec(s@) {
            None => r is None,
            Some((n, g)) => r matches Some(x) && x.0 == n && x.1@ == g,
        },
{
    let v = chars_of(s);
    let ts = words_exec(&v);
    let dp = chars_of("vulkan-devices=");
    let gp = chars_of("vulkan-gpus=");
    proof {
        reveal_strlit("vulkan-devices=");
        reveal_strlit("vulkan-gpus=");
    }
    match first_prefixed_exec(&ts, &dp) {
        None => None,
        Some(i) => {
            let t = &ts[i];
            proof {
                assert(starts_with(t@, dp@)) by {
                    lemma_first_prefixed(vviews(ts@), dp@, 0);
                }
            }
            let rest = sub_vec(t, 15, t.len());
            assert(rest@ =~= t@.skip(15));
            match parse_u32(&rest) {
                None => None,
                Some(n) => {
                    let names = match first_prefixed_exec(&ts, &gp) {
                        Some(j) => string_of(&strip_all_exec(&ts[j], &gp)),
                        None => String::new(),
                    };
                    Some((n, names))
                },
            }
        },
    }
}

proof fn lemma_first_prefixed(ts: Seq<Seq<char>>, p: Seq<char>, i: int)
    requires
        0 <= i,
    ensures
        first_prefixed(ts, p, i) matches Some(t) ==> starts_with(t, p),
    decreases ts.len() - i,
{
    if i < ts.len() && !starts_with(ts[i], p) {
        lemma_first_prefixed(ts, p, i + 1);
    }
}

// ---------------------------------------------------------------------------
// what an engine prints
// ---------------------------------------------------------------------------

/// A protocol line that parsed is passed on as it is; any other stdout line
/// becomes a log line. The flag tells whether the event ends the run.
pub fn forward_line(parsed: Option<EngineEvent>, line: String) -> (r: (EngineEvent, bool))
    ensures
        match parsed {
            Some(ev) => r.0 == ev && r.1 == is_terminal_spec(ev),
            None => r.0 == (EngineEvent::Log { s: line }) && !r.1,
        },
{
    match parsed {
        Some(ev) => {
            let t = ev.is_terminal();
            (ev, t)
        },
        None => (EngineEvent::Log { s: line }, false),
    }
}

pub open spec fn strip_cr(x: Seq<char>) -> Seq<char> {
    if x.len() > 0 && x.last() == '\r' {
        x.drop_last()
    } else {
        x
    }
}

/// `str::lines`: pieces ended by '\n' lose it and a '\r' before it; a last
/// piece without '\n' is kept as it is, an empty one is dropped.
pub open spec fn lines(s: Seq<char>) -> Seq<Seq<char>> {
    let p = split_on(s, '\n');
    let body = p.take(p.len() - 1).map_values(|x: Seq<char>| strip_cr(x));
    if p.last().len() == 0 {
        body
    } else {
        body.push(p.last())
    }
}

/// The last (at most) `k` items, last first.
pub open spec fn rev_take(ls: Seq<Seq<char>>, k: int) -> Seq<Seq<char>> {
    let n = if ls.len() < k {
        ls.len() as int
    } else {
        k
    };
    Seq::new(n as nat, |j: int| ls[ls.len() - 1 - j])
}

/// Bytes of stderr kept for the crash message.
pub const TAIL_BYTES: usize = 300;

/// How many characters of `s`, from the `c`-th on, still fit with the
/// first ones in `n` bytes of UTF-8: the longest prefix that fits.
pub open spec fn fit_from(s: Seq<char>, n: int, c: int) -> int
    decreases s.len() - c,
{
    if c < 0 || c >= s.len() || utf8_len(s.take(c + 1)) > n {
        c
    } else {
        fit_from(s, n, c + 1)
    }
}

/// The last four lines of an engine's stderr, last first, joined by " | ".
pub open spec fn stderr_lines(buf: Seq<char>) -> Seq<char> {
    join(rev_take(lines(buf), 4), " | "@)
}

/// The crash details shown for an engine's stderr: its last four lines,
/// last first, joined by " | ", cut at the last character boundary within
/// `TAIL_BYTES` bytes.
pub open spec fn stderr_tail_spec(buf: Seq<char>) -> Seq<char> {
    let j = stderr_lines(buf);
    if utf8_len(j) > TAIL_BYTES {
        j.take(fit_from(j, TAIL_BYTES as int, 0))
    } else {
        j
    }
}

proof fn lemma_fit_from(s: Seq<char>, n: int, c: int)
    requires
        0 <= c <= s.len(),
        utf8_len(s.take(c)) <= n,
    ensures
        c <= fit_from(s, n, c) <= s.len(),
        utf8_len(s.take(fit_from(s, n, c))) <= n,
        fit_from(s, n, c) < s.len() ==> utf8_len(s.take(fit_from(s, n, c) + 1)) > n,
    decreases s.len() - c,
{
    if c < s.len() && utf8_len(s.take(c + 1)) <= n {
        lemma_fit_from(s, n, c + 1);
    }
}

/// The crash details fit in `TAIL_BYTES` bytes and are the start of the
/// last lines: the longest such start that ends on a character.
pub proof fn law_stderr_tail_fits(buf: Seq<char>)
    ensures
        utf8_len(stderr_tail_spec(buf)) <= TAIL_BYTES,
        stderr_lines(buf).take(stderr_tail_spec(buf).len() as int) == stderr_tail_spec(buf),
        stderr_tail_spec(buf).len() < stderr_lines(buf).len() ==> utf8_len(
            stderr_lines(buf).take(stderr_tail_spec(buf).len() as int + 1),
        ) > TAIL_BYTES,
{
    let j = stderr_lines(buf);
    if utf8_len(j) > TAIL_BYTES {
        assert(j.take(0) =~= Seq::<char>::empty());
        assert(utf8_len(Seq::<char>::empty()) == 0);
        lemma_fit_from(j, TAIL_BYTES as int, 0);
        let c = fit_from(j, TAIL_BYTES as int, 0);
        assert(j.take(c).len() == c);
        assert(j.take(c) =~= j.take(c).take(c));
    } else {
        assert(j.take(j.len() as int) =~= j);
    }
}

pub(crate) fn lines_exec(v: &Vec<char>) -> (r: Vec<Vec<char>>)
    ensures
        vviews(r@) == lines(v@),
{
    let mut r: Vec<Vec<char>> = Vec::new();
    let mut cur: Vec<char> = Vec::new();
    let mut i: usize = 0;
    proof {
        crate::text::lemma_split_on_nonempty(v@.take(0), '\n');
    }
    while i < v.len()
        invariant
            i <= v.len(),
            split_on(v@.take(i as int), '\n').len() >= 1,
            vviews(r@) == {
                let p = split_on(v@.take(i as int), '\n');
                p.take(p.len() - 1).map_values(|x: Seq<char>| strip_cr(x))
            },
            cur@ == split_on(v@.take(i as int), '\n').last(),
        decreases v.len() - i,
    {
        let ghost pre = v@.take(i as int);
        let ghost p = split_on(pre, '\n');
        let ghost next = v@.take(i + 1);
        proof {
            assert(next.drop_last() =~= pre);
            assert(next.last() == v@[i as int]);
        }
        if v[i] == '\n' {
            let mut line = cur;
            if line.len() > 0 && line[line.len() - 1] == '\r' {
                line.pop();
            }
            assert(line@ == strip_cr(p.last()));
            let ghost rb = vviews(r@);
            r.push(line);
            assert(vviews(r@) =~= rb.push(strip_cr(p.last())));
            cur = Vec::new();
            proof {
                let q = split_on(next, '\n');
                assert(q == p.push(seq![]));
                assert(q.take(q.len() - 1) =~= p);
                assert(p =~= p.take(p.len() - 1).push(p.last()));
                assert(vviews(r@) =~= q.take(q.len() - 1).map_values(|x: Seq<char>| strip_cr(x)));
                assert(cur@ =~= q.last());
            }
        } else {
            cur.push(v[i]);
            proof {
                let q = split_on(next, '\n');
                assert(q == p.update(p.len() - 1, p.last().push(v@[i as int])));
                assert(q.take(q.len() - 1) =~= p.take(p.len() - 1));
            }
        }
        i += 1;
    }
    assert(v@.take(v.len() as int) =~= v@);
    if cur.len() > 0 {
        let w = cur;
        r.push(w);
        assert(vviews(r@) =~= vviews(r@.drop_last()).push(w@));
    }
    r
}

/// The crash details for an engine's stderr (see `stderr_tail_spec`).
pub fn stderr_tail(buf: &str) -> (r: String)
    ensures
        r@ == stderr_tail_spec(buf@),
{
    let ls = lines_exec(&chars_of(buf));
    let n = ls.len();
    let k: usize = if n < 4 {
        n
    } else {
        4
    };
    let mut j = String::new();
    let mut m: usize = 0;
    let ghost rt = rev_take(vviews(ls@), 4);
    while m < k
        invariant
            m <= k <= n,
            n == ls@.len(),
            rt == rev_take(vviews(ls@), 4),
            rt.len() == k,
            j@ == join(rt.take(m as int), " | "@),
        decreases k - m,
    {
        let ghost before = j@;
        if m > 0 {
            push_str(&mut j, " | ");
        }
        push_chars(&mut j, &ls[n - 1 - m]);
        proof {
            assert(rt[m as int] == ls@[n - 1 - m]@);
            crate::text::lemma_join_push(rt.take(m as int), rt[m as int], " | "@);
            assert(rt.take(m as int).push(rt[m as int]) =~= rt.take(m + 1));
        }
        m += 1;
    }
    assert(rt.take(k as int) =~= rt);
    let jv = chars_of(j.as_str());
    let total = utf8_len_prefix(&jv, jv.len());
    assert(jv@.take(jv.len() as int) =~= jv@);
    if total > TAIL_BYTES as u128 {
        let mut c: usize = 0;
        let mut bytes: usize = 0;
        assert(jv@.take(0) =~= Seq::<char>::empty());
        while c < jv.len() && bytes + crate::text::utf8_width_exec(jv[c]) <= TAIL_BYTES
            invariant
                c <= jv.len(),
                bytes <= TAIL_BYTES,
                bytes == utf8_len(jv@.take(c as int)),
                fit_from(jv@, TAIL_BYTES as int, 0) == fit_from(jv@, TAIL_BYTES as int, c as int),
            decreases jv.len() - c,
        {
            proof {
                crate::glossary::lemma_utf8_len_step(jv@, c as int);
            }
            bytes = bytes + crate::text::utf8_width_exec(jv[c]);
            c += 1;
        }
        proof {
            if c < jv.len() {
                crate::glossary::lemma_utf8_len_step(jv@, c as int);
            }
        }
        string_of_range(&jv, 0, c)
    } else {
        j
    }
}


// ---------------------------------------------------------------------------
// the capabilities line, read back
// ---------------------------------------------------------------------------

/// A non-empty run of characters without white space: one word.
pub open spec fn solid(t: Seq<char>) -> bool {
    t.len() >= 1 && forall|i: int| 0 <= i < t.len() ==> !is_ws(#[trigger] t[i])
}

proof fn lemma_solid_concat(a: Seq<char>, b: Seq<char>)
    requires
        solid(a),
        solid(b),
    ensures
        solid(a + b),
{
    assert forall|i: int| 0 <= i < (a + b).len() implies !is_ws(#[trigger] (a + b)[i]) by {
        if i < a.len() {
            assert((a + b)[i] == a[i]);
        } else {
            assert((a + b)[i] == b[i - a.len()]);
        }
    }
}

proof fn lemma_words_solid(t: Seq<char>)
    requires
        solid(t),
    ensures
        words(t) == seq![t],
    decreases t.len(),
{
    let u = t.drop_last();
    if t.len() == 1 {
        assert(u =~= Seq::<char>::empty());
        assert(words(u) =~= Seq::<Seq<char>>::empty());
        assert(words(t) == words(u).push(seq![t.last()]));
        assert(seq![t.last()] =~= t);
        assert(words(u).push(seq![t.last()]) =~= seq![t]);
    } else {
        assert forall|i: int| 0 <= i < u.len() implies !is_ws(#[trigger] u[i]) by {
            assert(u[i] == t[i]);
        }
        lemma_words_solid(u);
        assert(t[t.len() - 2] == u.last());
        assert(u.push(t.last()) =~= t);
        assert(words(t) == words(u).update(0, words(u).last().push(t.last())));
        assert(seq![u].update(0, u.push(t.last())) =~= seq![t]);
    }
}

/// The words of `a`, then a space, then the word `t`.
proof fn lemma_words_then(a: Seq<char>, t: Seq<char>)
    requires
        solid(t),
    ensures
        words(a + (seq![' '] + t)) == words(a).push(t),
    decreases t.len(),
{
    let s = a + (seq![' '] + t);
    let u = t.drop_last();
    assert(s.last() == t.last());
    if t.len() == 1 {
        assert(s.drop_last() =~= a.push(' '));
        assert(a.push(' ').drop_last() =~= a);
        assert(is_ws(' '));
        assert(words(a.push(' ')) == words(a));
        assert(s[s.len() - 2] == ' ');
        assert(words(s) == words(a.push(' ')).push(seq![t.last()]));
        assert(seq![t.last()] =~= t);
    } else {
        assert forall|i: int| 0 <= i < u.len() implies !is_ws(#[trigger] u[i]) by {
            assert(u[i] == t[i]);
        }
        lemma_words_then(a, u);
        assert(s.drop_last() =~= a + (seq![' '] + u));
        assert(s[s.len() - 2] == u.last());
        assert(u.push(t.last()) =~= t);
        let w = words(a + (seq![' '] + u));
        assert(words(s) == w.update(w.len() - 1, w.last().push(t.last())));
        assert(words(a).push(u).update(words(a).len() as int, u.push(t.last())) =~= words(a).push(t));
    }
}

/// White space splits: the words of `a + b`, where `b` starts with white
/// space, are the words of `a`, then those of `b`.
proof fn lemma_words_append(a: Seq<char>, b: Seq<char>)
    requires
        b.len() >= 1,
        is_ws(b[0]),
    ensures
        words(a + b) == words(a) + words(b),
    decreases b.len(),
{
    let s = a + b;
    assert(s.last() == b.last());
    if b.len() == 1 {
        assert(s.drop_last() =~= a);
        assert(words(s) == words(a));
        assert(b.drop_last() =~= Seq::<char>::empty());
        assert(words(b.drop_last()) =~= Seq::<Seq<char>>::empty());
        assert(words(b) == words(b.drop_last()));
        assert(words(a) + Seq::<Seq<char>>::empty() =~= words(a));
    } else {
        let b2 = b.drop_last();
        assert(b2[0] == b[0]);
        lemma_words_append(a, b2);
        assert(s.drop_last() =~= a + b2);
        assert(s[s.len() - 2] == b2.last());
        assert(b[b.len() - 2] == b2.last());
        if is_ws(b.last()) {
            assert(words(s) == words(a + b2));
            assert(words(b) == words(b2));
        } else if !is_ws(b2.last()) {
            crate::text::lemma_words_last(b2);
            let w = words(a) + words(b2);
            assert(words(s) == w.update(w.len() - 1, w.last().push(b.last())));
            assert(words(b) == words(b2).update(words(b2).len() - 1, words(b2).last().push(b.last())));
            assert(w.update(w.len() - 1, w.last().push(b.last())) =~= words(a) + words(b2).update(
                words(b2).len() - 1,
                words(b2).last().push(b.last()),
            ));
        } else {
            assert(words(s) == (words(a) + words(b2)).push(seq![b.last()]));
            assert(words(b) == words(b2).push(seq![b.last()]));
            assert((words(a) + words(b2)).push(seq![b.last()]) =~= words(a) + words(b2).push(
                seq![b.last()],
            ));
        }
    }
}

/// Decimal digits read back give the number.
pub(crate) proof fn lemma_dec_digits(n: nat)
    ensures
        dec(n).len() >= 1,
        forall|i: int| 0 <= i < dec(n).len() ==> is_digit(#[trigger] dec(n)[i]),
        digits_value(dec(n)) == n,
    decreases n,
{
    if n >= 10 {
        lemma_dec_digits(n / 10);
        let p = dec(n / 10);
        let d = digit((n % 10) as int);
        assert(dec(n) == p.push(d));
        assert(dec(n).drop_last() =~= p);
        assert forall|i: int| 0 <= i < dec(n).len() implies is_digit(#[trigger] dec(n)[i]) by {
            if i < p.len() {
                assert(dec(n)[i] == p[i]);
            }
        }
        assert(digit_value(d) == n % 10);
        assert(dec(n).last() == d);
        assert(digits_value(dec(n)) == 10 * digits_value(p) + digit_value(d));
    } else {
        assert(dec(n) == seq![digit(n as int)]);
        assert(dec(n).drop_last() =~= Seq::<char>::empty());
        assert(digits_value(dec(n).drop_last()) == 0);
        assert(digit_value(digit(n as int)) == n);
        assert(digits_value(dec(n)) == 10 * digits_value(dec(n).drop_last()) + digit_value(
            dec(n).last(),
        ));
    }
}

proof fn lemma_digits_solid(d: Seq<char>)
    requires
        d.len() >= 1,
        forall|i: int| 0 <= i < d.len() ==> is_digit(#[trigger] d[i]),
    ensures
        solid(d),
{
    assert forall|i: int| 0 <= i < d.len() implies !is_ws(#[trigger] d[i]) by {
        assert(is_digit(d[i]));
    }
}

proof fn lemma_parse_dec(n: u32)
    ensures
        parse_u32_spec(dec(n as nat)) == Some(n),
{
    lemma_dec_digits(n as nat);
    let d = dec(n as nat);
    assert(is_digit(d[0]));
    assert(digits_part(d) == d);
}

/// `first_prefixed` passes over tokens without the prefix.
proof fn lemma_first_prefixed_skip(ts: Seq<Seq<char>>, p: Seq<char>, i: int)
    requires
        0 <= i <= ts.len(),
        forall|k: int| 0 <= k < i ==> !starts_with(#[trigger] ts[k], p),
    ensures
        first_prefixed(ts, p, 0) == first_prefixed(ts, p, i),
    decreases i,
{
    if i > 0 {
        lemma_first_prefixed_skip(ts, p, i - 1);
        assert(!starts_with(ts[i - 1], p));
    }
}

/// A token whose `k`-th character differs from the prefix's does not
/// start with it.
proof fn lemma_not_prefix(t: Seq<char>, p: Seq<char>, k: int)
    requires
        0 <= k < p.len(),
        k < t.len() ==> t[k] != p[k],
    ensures
        !starts_with(t, p),
{
    if starts_with(t, p) {
        assert(t.take(p.len() as int)[k] == t[k]);
    }
}

/// A character of a version number: a digit or a dot.
pub open spec fn version_char(c: char) -> bool {
    ('0' <= c && c <= '9') || c == '.'
}

proof fn lemma_dec_int_solid(x: int)
    ensures
        solid(dec_int(x)),
{
    if x < 0 {
        lemma_dec_digits((-x) as nat);
        lemma_digits_solid(dec((-x) as nat));
        assert(solid(seq!['-']));
        lemma_solid_concat(seq!['-'], dec((-x) as nat));
    } else {
        lemma_dec_digits(x as nat);
        lemma_digits_solid(dec(x as nat));
    }
}

/// A word followed by a number.
proof fn lemma_word_number(w: Seq<char>, x: int)
    requires
        solid(w),
    ensures
        solid(w + dec_int(x)),
{
    lemma_dec_int_solid(x);
    lemma_solid_concat(w, dec_int(x));
}

/// The words of a capabilities line before its "vulkan-gpus=" word.
pub open spec fn caps_words(version: Seq<char>, c: crate::engine::Caps, vk: u8, devices: u32) -> Seq<
    Seq<char>,
> {
    seq![
        "engine v"@.take(6),
        seq!['v'] + version,
        " compiled-flags:"@.skip(1),
        " sse3="@.skip(1) + dec_int(c.sse3 as int),
        " avx="@.skip(1) + dec_int(c.avx as int),
        " avx2="@.skip(1) + dec_int(c.avx2 as int),
        " fma="@.skip(1) + dec_int(c.fma as int),
        " f16c="@.skip(1) + dec_int(c.f16c as int),
        " avx512="@.skip(1) + dec_int(c.avx512 as int),
        " vulkan="@.skip(1) + dec(vk as nat),
        " vulkan-devices="@.skip(1) + dec(devices as nat),
    ]
}

proof fn lemma_caps_words_solid(version: Seq<char>, c: crate::engine::Caps, vk: u8, devices: u32)
    requires
        forall|i: int| 0 <= i < version.len() ==> version_char(#[trigger] version[i]),
    ensures
        forall|k: int| 0 <= k < 11 ==> solid(#[trigger] caps_words(version, c, vk, devices)[k]),
{
    reveal_strlit("engine v");
    reveal_strlit(" compiled-flags:");
    reveal_strlit(" sse3=");
    reveal_strlit(" avx=");
    reveal_strlit(" avx2=");
    reveal_strlit(" fma=");
    reveal_strlit(" f16c=");
    reveal_strlit(" avx512=");
    reveal_strlit(" vulkan=");
    reveal_strlit(" vulkan-devices=");
    let ws = caps_words(version, c, vk, devices);
    let t1 = seq!['v'] + version;
    assert forall|i: int| 0 <= i < t1.len() implies !is_ws(#[trigger] t1[i]) by {
        if i > 0 {
            assert(t1[i] == version[i - 1]);
            assert(version_char(version[i - 1]));
        }
    }
    assert(solid("engine v"@.take(6)));
    assert(solid(" compiled-flags:"@.skip(1)));
    assert(solid(" sse3="@.skip(1)));
    lemma_word_number(" sse3="@.skip(1), c.sse3 as int);
    assert(solid(" avx="@.skip(1)));
    lemma_word_number(" avx="@.skip(1), c.avx as int);
    assert(solid(" avx2="@.skip(1)));
    lemma_word_number(" avx2="@.skip(1), c.avx2 as int);
    assert(solid(" fma="@.skip(1)));
    lemma_word_number(" fma="@.skip(1), c.fma as int);
    assert(solid(" f16c="@.skip(1)));
    lemma_word_number(" f16c="@.skip(1), c.f16c as int);
    assert(solid(" avx512="@.skip(1)));
    lemma_word_number(" avx512="@.skip(1), c.avx512 as int);
    assert(solid(" vulkan="@.skip(1)));
    lemma_word_number(" vulkan="@.skip(1), vk as int);
    assert(solid(" vulkan-devices="@.skip(1)));
    lemma_word_number(" vulkan-devices="@.skip(1), devices as int);
    assert forall|k: int| 0 <= k < 11 implies solid(#[trigger] ws[k]) by {
        if k == 9 {
            assert(dec_int(vk as int) == dec(vk as nat));
        } else if k == 10 {
            assert(dec_int(devices as int) == dec(devices as nat));
        }
    }
}

proof fn lemma_caps_words_prefix(version: Seq<char>, c: crate::engine::Caps, vk: u8, devices: u32)
    requires
        forall|i: int| 0 <= i < version.len() ==> version_char(#[trigger] version[i]),
    ensures
        forall|k: int|
            0 <= k < 10 ==> !starts_with(
                #[trigger] caps_words(version, c, vk, devices)[k],
                "vulkan-devices="@,
            ),
        starts_with(caps_words(version, c, vk, devices)[10], "vulkan-devices="@),
        caps_words(version, c, vk, devices)[10].skip(15) == dec(devices as nat),
{
    reveal_strlit("engine v");
    reveal_strlit(" compiled-flags:");
    reveal_strlit(" sse3=");
    reveal_strlit(" avx=");
    reveal_strlit(" avx2=");
    reveal_strlit(" fma=");
    reveal_strlit(" f16c=");
    reveal_strlit(" avx512=");
    reveal_strlit(" vulkan=");
    reveal_strlit(" vulkan-devices=");
    reveal_strlit("vulkan-devices=");
    let p = "vulkan-devices="@;
    let ws = caps_words(version, c, vk, devices);
    if version.len() > 0 {
        assert(version_char(version[0]));
        assert(ws[1][1] == version[0]);
    }
    lemma_not_prefix(ws[0], p, 0);
    lemma_not_prefix(ws[1], p, 1);
    lemma_not_prefix(ws[2], p, 0);
    lemma_not_prefix(ws[3], p, 0);
    lemma_not_prefix(ws[4], p, 0);
    lemma_not_prefix(ws[5], p, 0);
    lemma_not_prefix(ws[6], p, 0);
    lemma_not_prefix(ws[7], p, 0);
    lemma_not_prefix(ws[8], p, 0);
    lemma_not_prefix(ws[9], p, 6);
    assert(ws[10].take(15) =~= p);
    assert(ws[10].skip(15) =~= dec(devices as nat));
}

proof fn lemma_spaced_step(ws: Seq<Seq<char>>, k: int)
    requires
        1 <= k < ws.len(),
    ensures
        spaced(ws.take(k + 1)) == spaced(ws.take(k)) + (seq![' '] + ws[k]),
{
    assert(ws.take(k + 1).drop_last() =~= ws.take(k));
    assert(ws.take(k + 1).last() == ws[k]);
}

/// A literal that starts with a space, then a number: a space, then one
/// word.
proof fn lemma_spaced_piece(p: Seq<char>, l: Seq<char>, x: Seq<char>)
    requires
        l.len() >= 1,
        l[0] == ' ',
    ensures
        p + (seq![' '] + (l.skip(1) + x)) == p + l + x,
        p + (seq![' '] + l.skip(1)) == p + l,
{
    assert(p + (seq![' '] + (l.skip(1) + x)) =~= p + l + x);
    assert(p + (seq![' '] + l.skip(1)) =~= p + l);
}

/// The line, up to its "vulkan-gpus=" word, is its words with a space
/// before each but the first.
#[verifier::spinoff_prover]
proof fn lemma_caps_line_shape(
    version: Seq<char>,
    c: crate::engine::Caps,
    vk: u8,
    devices: u32,
    names: Seq<char>,
) -> (head: Seq<char>)
    ensures
        crate::engine::caps_line_spec(version, c, vk, devices, names) == head + (" vulkan-gpus="@
            + if names.len() == 0 {
            "none"@
        } else {
            names
        }),
        head == spaced(caps_words(version, c, vk, devices)),
{
    let ws = caps_words(version, c, vk, devices);
    assert(dec_int(vk as int) == dec(vk as nat));
    assert(dec_int(devices as int) == dec(devices as nat));
    assert(ws.take(1) =~= seq![ws[0]]);
    assert(spaced(ws.take(1)) == ws[0]);
    lemma_spaced_step(ws, 1);
    assert(spaced(ws.take(2)) == "engine v"@ + version) by {
        reveal_strlit("engine v");
        assert(ws[0] + (seq![' '] + ws[1]) =~= "engine v"@ + version);
    }
    lemma_spaced_step(ws, 2);
    assert(" compiled-flags:"@.len() >= 1 && " compiled-flags:"@[0] == ' ') by {
        reveal_strlit(" compiled-flags:");
    }
    lemma_spaced_piece(spaced(ws.take(2)), " compiled-flags:"@, Seq::empty());
    lemma_spaced_step(ws, 3);
    assert(" sse3="@.len() >= 1 && " sse3="@[0] == ' ') by {
        reveal_strlit(" sse3=");
    }
    lemma_spaced_piece(spaced(ws.take(3)), " sse3="@, dec_int(c.sse3 as int));
    lemma_spaced_step(ws, 4);
    assert(" avx="@.len() >= 1 && " avx="@[0] == ' ') by {
        reveal_strlit(" avx=");
    }
    lemma_spaced_piece(spaced(ws.take(4)), " avx="@, dec_int(c.avx as int));
    lemma_spaced_step(ws, 5);
    assert(" avx2="@.len() >= 1 && " avx2="@[0] == ' ') by {
        reveal_strlit(" avx2=");
    }
    lemma_spaced_piece(spaced(ws.take(5)), " avx2="@, dec_int(c.avx2 as int));
    lemma_spaced_step(ws, 6);
    assert(" fma="@.len() >= 1 && " fma="@[0] == ' ') by {
        reveal_strlit(" fma=");
    }
    lemma_spaced_piece(spaced(ws.take(6)), " fma="@, dec_int(c.fma as int));
    lemma_spaced_step(ws, 7);
    assert(" f16c="@.len() >= 1 && " f16c="@[0] == ' ') by {
        reveal_strlit(" f16c=");
    }
    lemma_spaced_piece(spaced(ws.take(7)), " f16c="@, dec_int(c.f16c as int));
    lemma_spaced_step(ws, 8);
    assert(" avx512="@.len() >= 1 && " avx512="@[0] == ' ') by {
        reveal_strlit(" avx512=");
    }
    lemma_spaced_piece(spaced(ws.take(8)), " avx512="@, dec_int(c.avx512 as int));
    lemma_spaced_step(ws, 9);
    assert(" vulkan="@.len() >= 1 && " vulkan="@[0] == ' ') by {
        reveal_strlit(" vulkan=");
    }
    lemma_spaced_piece(spaced(ws.take(9)), " vulkan="@, dec(vk as nat));
    lemma_spaced_step(ws, 10);
    assert(" vulkan-devices="@.len() >= 1 && " vulkan-devices="@[0] == ' ') by {
        reveal_strlit(" vulkan-devices=");
    }
    lemma_spaced_piece(spaced(ws.take(10)), " vulkan-devices="@, dec(devices as nat));
    assert(ws.take(11) =~= ws);
    spaced(ws)
}

/// Words with a space before each but the first.
pub open spec fn spaced(ts: Seq<Seq<char>>) -> Seq<char>
    decreases ts.len(),
{
    if ts.len() == 0 {
        Seq::empty()
    } else if ts.len() == 1 {
        ts[0]
    } else {
        spaced(ts.drop_last()) + (seq![' '] + ts.last())
    }
}

pub(crate) proof fn lemma_words_spaced(ts: Seq<Seq<char>>)
    requires
        forall|k: int| 0 <= k < ts.len() ==> solid(#[trigger] ts[k]),
    ensures
        words(spaced(ts)) == ts,
    decreases ts.len(),
{
    if ts.len() == 0 {
        assert(words(Seq::<char>::empty()) =~= ts);
    } else if ts.len() == 1 {
        lemma_words_solid(ts[0]);
        assert(seq![ts[0]] =~= ts);
    } else {
        let init = ts.drop_last();
        assert forall|k: int| 0 <= k < init.len() implies solid(#[trigger] init[k]) by {
            assert(init[k] == ts[k]);
        }
        lemma_words_spaced(init);
        assert(solid(ts[ts.len() - 1]));
        lemma_words_then(spaced(init), ts.last());
        assert(init.push(ts.last()) =~= ts);
    }
}

/// The words before "vulkan-gpus=" do not start with it.
proof fn lemma_caps_words_not_gpus(version: Seq<char>, c: crate::engine::Caps, vk: u8, devices: u32)
    requires
        forall|i: int| 0 <= i < version.len() ==> version_char(#[trigger] version[i]),
    ensures
        forall|k: int|
            0 <= k < 11 ==> !starts_with(
                #[trigger] caps_words(version, c, vk, devices)[k],
                "vulkan-gpus="@,
            ),
{
    reveal_strlit("engine v");
    reveal_strlit(" compiled-flags:");
    reveal_strlit(" sse3=");
    reveal_strlit(" avx=");
    reveal_strlit(" avx2=");
    reveal_strlit(" fma=");
    reveal_strlit(" f16c=");
    reveal_strlit(" avx512=");
    reveal_strlit(" vulkan=");
    reveal_strlit(" vulkan-devices=");
    reveal_strlit("vulkan-gpus=");
    let p = "vulkan-gpus="@;
    let ws = caps_words(version, c, vk, devices);
    if version.len() > 0 {
        assert(version_char(version[0]));
        assert(ws[1][1] == version[0]);
    }
    lemma_not_prefix(ws[0], p, 0);
    lemma_not_prefix(ws[1], p, 1);
    lemma_not_prefix(ws[2], p, 0);
    lemma_not_prefix(ws[3], p, 0);
    lemma_not_prefix(ws[4], p, 0);
    lemma_not_prefix(ws[5], p, 0);
    lemma_not_prefix(ws[6], p, 0);
    lemma_not_prefix(ws[7], p, 0);
    lemma_not_prefix(ws[8], p, 0);
    lemma_not_prefix(ws[9], p, 6);
    lemma_not_prefix(ws[10], p, 7);
}

/// What the engine's capabilities line says of the Vulkan devices, the
/// GUI's probe reads back (for a version made of digits and dots): the
/// device count, and the device names, one word that does not itself
/// start with "vulkan-gpus=", or "none" where there are none.
pub proof fn law_caps_line_round_trip(
    version: Seq<char>,
    c: crate::engine::Caps,
    vk: u8,
    devices: u32,
    names: Seq<char>,
)
    requires
        forall|i: int| 0 <= i < version.len() ==> version_char(#[trigger] version[i]),
        names.len() == 0 || solid(names),
        !starts_with(names, "vulkan-gpus="@),
    ensures
        parse_caps_spec(crate::engine::caps_line_spec(version, c, vk, devices, names)) == Some(
            (
                devices,
                if names.len() == 0 {
                    "none"@
                } else {
                    names
                },
            ),
        ),
{
    let ws = caps_words(version, c, vk, devices);
    let head = lemma_caps_line_shape(version, c, vk, devices, names);
    lemma_caps_words_solid(version, c, vk, devices);
    lemma_caps_words_prefix(version, c, vk, devices);
    lemma_caps_words_not_gpus(version, c, vk, devices);
    lemma_words_spaced(ws);
    let nm = if names.len() == 0 {
        "none"@
    } else {
        names
    };
    let gp = "vulkan-gpus="@;
    reveal_strlit(" vulkan-gpus=");
    reveal_strlit("vulkan-gpus=");
    reveal_strlit("none");
    let rest = " vulkan-gpus="@ + nm;
    let gt = gp + nm;
    assert(rest =~= seq![' '] + gt);
    assert(rest[0] == ' ');
    lemma_words_append(head, rest);
    assert(solid(nm));
    assert(solid(gp));
    lemma_solid_concat(gp, nm);
    lemma_words_then(Seq::<char>::empty(), gt);
    assert(Seq::<char>::empty() + (seq![' '] + gt) =~= rest);
    assert(words(Seq::<char>::empty()) =~= Seq::<Seq<char>>::empty());
    assert(words(rest) =~= seq![gt]);
    let ts = words(crate::engine::caps_line_spec(version, c, vk, devices, names));
    assert(ts == ws + seq![gt]);
    assert forall|k: int| 0 <= k < 10 implies !starts_with(#[trigger] ts[k], "vulkan-devices="@) by {
        assert(ts[k] == ws[k]);
    }
    assert(ts[10] == ws[10]);
    lemma_first_prefixed_skip(ts, "vulkan-devices="@, 10);
    lemma_parse_dec(devices);
    assert forall|k: int| 0 <= k < 11 implies !starts_with(#[trigger] ts[k], gp) by {
        assert(ts[k] == ws[k]);
    }
    lemma_first_prefixed_skip(ts, gp, 11);
    assert(ts[11] == gt);
    assert(gt.take(gp.len() as int) =~= gp);
    assert(first_prefixed(ts, gp, 11) == Some(gt));
    assert(gt.skip(gp.len() as int) =~= nm);
    if names.len() == 0 {
        lemma_not_prefix(nm, gp, 0);
    }
    assert(strip_all(nm, gp) == nm);
    assert(strip_all(gt, gp) == nm);
}


/// Only an outcome ends a run: a forwarded `Done` or `Failed` event does,
/// and no log, stage, progress or heartbeat event does, whatever it
/// carries (so a crash after it is still reported and retried).
pub proof fn law_only_outcomes_end_a_run(ev: EngineEvent)
    ensures
        (ev matches EngineEvent::Done { .. }) ==> is_terminal_spec(ev),
        (ev matches EngineEvent::Failed { .. }) ==> is_terminal_spec(ev),
        (ev matches EngineEvent::Log { .. }) ==> !is_terminal_spec(ev),
        (ev matches EngineEvent::Stage { .. }) ==> !is_terminal_spec(ev),
        (ev matches EngineEvent::Mt { .. }) ==> !is_terminal_spec(ev),
        (ev matches EngineEvent::Heartbeat { .. }) ==> !is_terminal_spec(ev),
{
}

} // verus!
