//! User glossary: lines of `turkish=arabic`, `#` and `//` comment lines.
//! The pairs are applied, in order, to each translated Arabic line.

use vstd::prelude::*;

use crate::text::{
    is_ws, lemma_split_on_nonempty, pair_views, lemma_trim_end_props, lemma_trim_idempotent, trim_end,
    trim_start, split_on, chars_of, find, find_exec, lemma_find_from, matches_at, replace_all, replace_exec,
    starts_with, string_of, string_of_range, trim, trim_bounds, utf8_len, utf8_width,
    utf8_width_exec,
};

verus! {

// ---------------------------------------------------------------------------
// parsing
// ---------------------------------------------------------------------------

/// The pair a glossary line gives, if any. Lines are trimmed (so a line
/// of `str::lines` and the same piece of a split at `'\n'` agree).
pub open spec fn parse_line(line: Seq<char>) -> Option<(Seq<char>, Seq<char>)> {
    let t = trim(line);
    if t.len() == 0 || t[0] == '#' || starts_with(t, seq!['/', '/']) {
        None
    } else {
        match find(t, seq!['=']) {
            None => None,
            Some(k) => {
                let a = trim(t.take(k));
                let b = trim(t.skip(k + 1));
                if a.len() > 0 && b.len() > 0 {
                    Some((a, b))
                } else {
                    None
                }
            },
        }
    }
}

/// The pairs that a sequence of lines gives, in order.
pub open spec fn pairs_of(lines: Seq<Seq<char>>) -> Seq<(Seq<char>, Seq<char>)>
    decreases lines.len(),
{
    if lines.len() == 0 {
        seq![]
    } else {
        match parse_line(lines.last()) {
            Some(p) => pairs_of(lines.drop_last()).push(p),
            None => pairs_of(lines.drop_last()),
        }
    }
}

/// What `parse` returns for a glossary text.
pub open spec fn parse_spec(text: Seq<char>) -> Seq<(Seq<char>, Seq<char>)> {
    pairs_of(split_on(text, '\n'))
}

fn sub_vec(v: &Vec<char>, i: usize, j: usize) -> (r: Vec<char>)
    requires
        i <= j <= v.len(),
    ensures
        r@ == v@.subrange(i as int, j as int),
{
    let mut r: Vec<char> = Vec::new();
    let mut k = i;
    while k < j
        invariant
            i <= k <= j <= v.len(),
            r@ == v@.subrange(i as int, k as int),
        decreases j - k,
    {
        r.push(v[k]);
        k += 1;
        assert(r@ =~= v@.subrange(i as int, k as int));
    }
    r
}

fn trimmed(v: &Vec<char>) -> (r: Vec<char>)
    ensures
        r@ == trim(v@),
{
    let (i, j) = trim_bounds(v);
    sub_vec(v, i, j)
}

fn parse_line_exec(line: &Vec<char>) -> (r: Option<(String, String)>)
    ensures
        r matches Some(p) ==> parse_line(line@) == Some((p.0@, p.1@)),
        r is None ==> parse_line(line@) is None,
{
    let t = trimmed(line);
    if t.len() == 0 || t[0] == '#' {
        return None;
    }
    if t.len() >= 2 && t[0] == '/' && t[1] == '/' {
        assert(t@.take(2) =~= seq!['/', '/']);
        return None;
    }
    assert(!starts_with(t@, seq!['/', '/']));
    let eq: Vec<char> = vec!['='];
    assert(eq@ =~= seq!['=']);
    match find_exec(&t, &eq) {
        None => None,
        Some(k) => {
            proof {
                lemma_find_from(t@, eq@, 0);
            }
            let a = trimmed(&sub_vec(&t, 0, k));
            let b = trimmed(&sub_vec(&t, k + 1, t.len()));
            assert(t@.subrange(0, k as int) =~= t@.take(k as int));
            assert(t@.subrange(k + 1, t.len() as int) =~= t@.skip(k + 1));
            if a.len() > 0 && b.len() > 0 {
                Some((string_of(&a), string_of(&b)))
            } else {
                None
            }
        },
    }
}

/// Parses a glossary: one `turkish=arabic` pair per line, both sides
/// trimmed and non-empty; blank lines and lines starting with `#` or `//`
/// are skipped.
pub fn parse(text: &str) -> (out: Vec<(String, String)>)
    ensures
        pair_views(out@) == parse_spec(text@),
{
    let v = chars_of(text);
    let mut out: Vec<(String, String)> = Vec::new();
    let mut cur: Vec<char> = Vec::new();
    let mut i: usize = 0;
    while i < v.len()
        invariant
            i <= v.len(),
            split_on(v@.take(i as int), '\n').len() >= 1,
            pair_views(out@) == pairs_of(split_on(v@.take(i as int), '\n').drop_last()),
            cur@ == split_on(v@.take(i as int), '\n').last(),
        decreases v.len() - i,
    {
        let ghost pre = v@.take(i as int);
        let ghost p = split_on(pre, '\n');
        let ghost next = v@.take(i + 1);
        proof {
            assert(next.drop_last() =~= pre);
            assert(next.last() == v@[i as int]);
        }
        if v[i] == '\n' {
            proof {
                let q = split_on(next, '\n');
                assert(q == p.push(seq![]));
                assert(q.drop_last() =~= p);
                assert(p =~= p.drop_last().push(p.last()));
            }
            match parse_line_exec(&cur) {
                Some(pr) => {
                    out.push(pr);
                    assert(pair_views(out@) =~= pair_views(out@.drop_last()).push((pr.0@, pr.1@)));
                },
                None => {},
            }
            cur = Vec::new();
            proof {
                let q = split_on(next, '\n');
                assert(q.last() =~= seq![]);
            }
        } else {
            cur.push(v[i]);
            proof {
                let q = split_on(next, '\n');
                assert(q == p.update(p.len() - 1, p.last().push(v@[i as int])));
                assert(q.drop_last() =~= p.drop_last());
            }
        }
        i += 1;
    }
    assert(v@.take(v.len() as int) =~= v@);
    let ghost p = split_on(v@, '\n');
    match parse_line_exec(&cur) {
        Some(pr) => {
            out.push(pr);
        },
        None => {},
    }
    proof {
        assert(p =~= p.drop_last().push(p.last()));
        assert(p.drop_last().push(p.last()).drop_last() =~= p.drop_last());
    }
    assert(pair_views(out@) =~= pairs_of(p));
    out
}

// ---------------------------------------------------------------------------
// applying
// ---------------------------------------------------------------------------

/// What `str::to_lowercase` returns: the full Unicode lower-case mapping.
pub uninterp spec fn lowercase(s: Seq<char>) -> Seq<char>;

/// Calls `str::to_lowercase`; its result is named `lowercase`.
#[verifier::external_body]
fn to_lowercase(s: &str) -> (r: String)
    ensures
        r@ == lowercase(s@),
{
    s.to_lowercase()
}

/// Length, in characters, of the first `j` characters of `ar` lower-cased
/// one by one.
pub open spec fn lower_prefix_len(ar: Seq<char>, j: int) -> int
    decreases j,
{
    if j <= 0 {
        0
    } else {
        lower_prefix_len(ar, j - 1) + lowercase(seq![ar[j - 1]]).len()
    }
}

/// From character `j` on, the last character of `ar` whose lower case
/// starts at or before position `k` of the lower-cased text.
pub open spec fn span_start(ar: Seq<char>, k: int, j: int) -> int
    decreases ar.len() - j,
{
    if j < 0 || j >= ar.len() || lower_prefix_len(ar, j + 1) > k {
        j
    } else {
        span_start(ar, k, j + 1)
    }
}

/// From character `j` on, the first character boundary of `ar` whose lower
/// case reaches position `e` of the lower-cased text (or the end).
pub open spec fn span_end(ar: Seq<char>, e: int, j: int) -> int
    decreases ar.len() - j,
{
    if j < 0 || j >= ar.len() || lower_prefix_len(ar, j) >= e {
        j
    } else {
        span_end(ar, e, j + 1)
    }
}

/// One glossary pair applied to `ar`: every exact occurrence of `tr` is
/// replaced; otherwise the first case-insensitive occurrence is, found in
/// the lower-cased text and replaced as the span of `ar` whose characters,
/// lower-cased, cover it.
pub open spec fn apply_one_spec(ar: Seq<char>, tr: Seq<char>, repl: Seq<char>) -> Seq<char> {
    if find(ar, tr) is Some {
        replace_all(ar, tr, repl)
    } else {
        match find(lowercase(ar), lowercase(tr)) {
            None => ar,
            Some(k) => {
                let s = span_start(ar, k, 0);
                let e = span_end(ar, k + lowercase(tr).len(), s);
                ar.take(s) + repl + ar.skip(e)
            },
        }
    }
}

/// All pairs applied to `ar`, first pair first.
pub open spec fn apply_spec(ar: Seq<char>, pairs: Seq<(Seq<char>, Seq<char>)>) -> Seq<char>
    decreases pairs.len(),
{
    if pairs.len() == 0 {
        ar
    } else {
        apply_one_spec(apply_spec(ar, pairs.drop_last()), pairs.last().0, pairs.last().1)
    }
}

pub(crate) proof fn lemma_utf8_len_step(s: Seq<char>, k: int)
    requires
        0 <= k < s.len(),
    ensures
        utf8_len(s.take(k + 1)) == utf8_len(s.take(k)) + utf8_width(s[k]),
{
    assert(s.take(k + 1).drop_last() =~= s.take(k));
}

/// Byte length of `v[..k]`.
pub(crate) fn utf8_len_prefix(v: &Vec<char>, k: usize) -> (n: u128)
    requires
        k <= v.len(),
    ensures
        n == utf8_len(v@.take(k as int)),
        n <= 4 * k,
{
    let mut n: u128 = 0;
    let mut i: usize = 0;
    assert(v@.take(0) =~= Seq::<char>::empty());
    while i < k
        invariant
            i <= k <= v.len(),
            n == utf8_len(v@.take(i as int)),
            n <= 4 * i,
        decreases k - i,
    {
        proof {
            lemma_utf8_len_step(v@, i as int);
        }
        n = n + utf8_width_exec(v[i]) as u128;
        i += 1;
    }
    n
}

/// The length of each character of `ar`, lower-cased on its own.
fn char_lower_lens(ar: &Vec<char>) -> (r: Vec<usize>)
    ensures
        r@.len() == ar@.len(),
        forall|i: int| 0 <= i < ar@.len() ==> r@[i] == lowercase(seq![ar@[i]]).len(),
{
    let mut r: Vec<usize> = Vec::new();
    let mut i: usize = 0;
    while i < ar.len()
        invariant
            i <= ar.len(),
            r@.len() == i,
            forall|m: int| 0 <= m < i ==> r@[m] == lowercase(seq![ar@[m]]).len(),
        decreases ar.len() - i,
    {
        let mut one = String::new();
        one.push(ar[i]);
        assert(one@ =~= seq![ar@[i as int]]);
        let low = chars_of(to_lowercase(one.as_str()).as_str());
        r.push(low.len());
        i += 1;
    }
    r
}

fn splice(ar: &Vec<char>, s: usize, e: usize, repl: &Vec<char>) -> (out: Vec<char>)
    requires
        s <= e <= ar.len(),
    ensures
        out@ == ar@.take(s as int) + repl@ + ar@.skip(e as int),
{
    let mut out = sub_vec(ar, 0, s);
    let mut t: usize = 0;
    while t < repl.len()
        invariant
            t <= repl.len(),
            out@ == ar@.take(s as int) + repl@.take(t as int),
        decreases repl.len() - t,
    {
        out.push(repl[t]);
        t += 1;
        assert(out@ =~= ar@.take(s as int) + repl@.take(t as int));
    }
    let tail = sub_vec(ar, e, ar.len());
    let mut u: usize = 0;
    let ghost mid = out@;
    while u < tail.len()
        invariant
            u <= tail.len(),
            out@ == mid + tail@.take(u as int),
        decreases tail.len() - u,
    {
        out.push(tail[u]);
        u += 1;
        assert(out@ =~= mid + tail@.take(u as int));
    }
    assert(repl@.take(repl.len() as int) =~= repl@);
    assert(tail@.take(tail.len() as int) =~= tail@);
    assert(tail@ =~= ar@.skip(e as int));
    out
}

fn apply_one(ar: &Vec<char>, tr: &Vec<char>, repl: &Vec<char>) -> (r: Vec<char>)
    ensures
        r@ == apply_one_spec(ar@, tr@, repl@),
{
    if find_exec(ar, tr).is_some() {
        return replace_exec(ar, tr, repl);
    }
    let ars = string_of(ar);
    let trs = string_of(tr);
    let lower = chars_of(to_lowercase(ars.as_str()).as_str());
    let lt = chars_of(to_lowercase(trs.as_str()).as_str());
    match find_exec(&lower, &lt) {
        None => sub_vec(ar, 0, ar.len()),
        Some(k) => {
            proof {
                lemma_find_from(lower@, lt@, 0);
            }
            let lens = char_lower_lens(ar);
            let n = ar.len();
            // the character in whose lower case the match starts
            let mut s: usize = 0;
            let mut acc: u128 = 0;
            while s < n && acc + lens[s] as u128 <= k as u128
                invariant
                    s <= n == ar@.len(),
                    lens@.len() == n,
                    forall|i: int| 0 <= i < n ==> lens@[i] == lowercase(seq![ar@[i]]).len(),
                    acc == lower_prefix_len(ar@, s as int),
                    acc <= k,
                    span_start(ar@, k as int, 0) == span_start(ar@, k as int, s as int),
                decreases n - s,
            {
                acc = acc + lens[s] as u128;
                s += 1;
            }
            // the first boundary at or after the end of the match
            let target: u128 = k as u128 + lt.len() as u128;
            let mut e: usize = s;
            let mut acc2: u128 = acc;
            while e < n && acc2 < target
                invariant
                    s <= e <= n == ar@.len(),
                    lens@.len() == n,
                    forall|i: int| 0 <= i < n ==> lens@[i] == lowercase(seq![ar@[i]]).len(),
                    acc2 == lower_prefix_len(ar@, e as int),
                    target == k + lt.len(),
                    acc2 <= target + usize::MAX,
                    span_end(ar@, target as int, s as int) == span_end(ar@, target as int, e as int),
                decreases n - e,
            {
                acc2 = acc2 + lens[e] as u128;
                e += 1;
            }
            splice(ar, s, e, repl)
        },
    }
}

fn apply_all(ar: &str, pairs: &[(String, String)]) -> (r: Vec<char>)
    ensures
        r@ == apply_spec(ar@, pair_views(pairs@)),
{
    let mut cur = chars_of(ar);
    let mut i: usize = 0;
    while i < pairs.len()
        invariant
            i <= pairs.len(),
            apply_spec(ar@, pair_views(pairs@).take(i as int)) == cur@,
        decreases pairs.len() - i,
    {
        let tr = chars_of(pairs[i].0.as_str());
        let repl = chars_of(pairs[i].1.as_str());
        proof {
            let ps = pair_views(pairs@).take(i + 1);
            assert(ps.drop_last() =~= pair_views(pairs@).take(i as int));
            assert(ps.last() == (pairs@[i as int].0@, pairs@[i as int].1@));
        }
        cur = apply_one(&cur, &tr, &repl);
        i += 1;
    }
    assert(pair_views(pairs@).take(pairs.len() as int) =~= pair_views(pairs@));
    cur
}

/// Applies the glossary pairs, in order, to an Arabic line: every exact
/// occurrence of the Turkish side is replaced; otherwise the first
/// case-insensitive occurrence is, as the span of the line that matched.
pub fn apply(ar: &mut String, pairs: &[(String, String)])
    ensures
        final(ar)@ == apply_spec(old(ar)@, pair_views(pairs@)),
{
    let v = apply_all(ar.as_str(), pairs);
    *ar = string_of(&v);
}

/// With no pairs the line is left as it is.
pub proof fn law_apply_no_pairs(ar: Seq<char>)
    ensures
        apply_spec(ar, Seq::empty()) == ar,
{
}

/// Applying the pairs `p`, then the pairs `q`, is applying `p` followed by
/// `q`.
pub proof fn law_apply_concat(
    ar: Seq<char>,
    p: Seq<(Seq<char>, Seq<char>)>,
    q: Seq<(Seq<char>, Seq<char>)>,
)
    ensures
        apply_spec(ar, p + q) == apply_spec(apply_spec(ar, p), q),
    decreases q.len(),
{
    if q.len() == 0 {
        assert(p + q =~= p);
    } else {
        law_apply_concat(ar, p, q.drop_last());
        assert((p + q).drop_last() =~= p + q.drop_last());
        assert((p + q).last() == q.last());
    }
}

proof fn lemma_split_join(a: Seq<char>, b: Seq<char>)
    ensures
        split_on(a + seq!['\n'] + b, '\n') == split_on(a, '\n') + split_on(b, '\n'),
    decreases b.len(),
{
    let s = a + seq!['\n'] + b;
    if b.len() == 0 {
        assert(s =~= a.push('\n'));
        assert(s.drop_last() =~= a);
        assert(split_on(b, '\n') =~= seq![Seq::<char>::empty()]);
        assert(split_on(s, '\n') =~= split_on(a, '\n') + split_on(b, '\n'));
    } else {
        let b0 = b.drop_last();
        lemma_split_join(a, b0);
        lemma_split_on_nonempty(b0, '\n');
        assert(s.drop_last() =~= a + seq!['\n'] + b0);
        assert(s.last() == b.last());
        assert(split_on(s, '\n') =~= split_on(a, '\n') + split_on(b, '\n'));
    }
}

proof fn lemma_pairs_of_add(l1: Seq<Seq<char>>, l2: Seq<Seq<char>>)
    ensures
        pairs_of(l1 + l2) == pairs_of(l1) + pairs_of(l2),
    decreases l2.len(),
{
    if l2.len() == 0 {
        assert(l1 + l2 =~= l1);
        assert(pairs_of(l1) + pairs_of(l2) =~= pairs_of(l1));
    } else {
        lemma_pairs_of_add(l1, l2.drop_last());
        assert((l1 + l2).drop_last() =~= l1 + l2.drop_last());
        assert((l1 + l2).last() == l2.last());
        assert(pairs_of(l1 + l2) =~= pairs_of(l1) + pairs_of(l2));
    }
}

/// Each line is read on its own: the pairs of two texts joined by a line
/// break are the pairs of the first, then those of the second, in order.
pub proof fn law_parse_joined(a: Seq<char>, b: Seq<char>)
    ensures
        parse_spec(a + seq!['\n'] + b) == parse_spec(a) + parse_spec(b),
{
    lemma_split_join(a, b);
    lemma_pairs_of_add(split_on(a, '\n'), split_on(b, '\n'));
}

/// An empty text gives no pairs.
pub proof fn law_parse_empty()
    ensures
        parse_spec(Seq::empty()).len() == 0,
{
    assert(split_on(Seq::<char>::empty(), '\n') =~= seq![Seq::<char>::empty()]);
    assert(split_on(Seq::<char>::empty(), '\n').drop_last() =~= Seq::<Seq<char>>::empty());
    let e = Seq::<char>::empty();
    assert(trim_start(e) == e);
    assert(trim_end(e) == e);
    assert(parse_line(e) is None);
    assert(split_on(e, '\n').last() == e);
    assert(pairs_of(Seq::<Seq<char>>::empty()).len() == 0);
    assert(pairs_of(split_on(e, '\n')) == pairs_of(split_on(e, '\n').drop_last()));
}

/// Every pair `parse` gives has two non-empty sides with no surrounding
/// white space, and a Turkish side without `=` that does not start with
/// `#` or `//` (comment lines give no pair).
pub proof fn law_parse_pairs_clean(text: Seq<char>)
    ensures
        forall|i: int|
            0 <= i < parse_spec(text).len() ==> {
                let p = #[trigger] parse_spec(text)[i];
                &&& p.0.len() > 0 && trim(p.0) == p.0
                &&& p.1.len() > 0 && trim(p.1) == p.1
                &&& !p.0.contains('=')
                &&& p.0[0] != '#'
                &&& !starts_with(p.0, seq!['/', '/'])
            },
{
    lemma_pairs_clean(split_on(text, '\n'));
}

proof fn lemma_trim_start_sub(s: Seq<char>) -> (off: int)
    ensures
        0 <= off <= s.len(),
        trim_start(s) == s.skip(off),
    decreases s.len(),
{
    if s.len() > 0 && is_ws(s[0]) {
        let o = lemma_trim_start_sub(s.drop_first());
        assert(s.drop_first().skip(o) =~= s.skip(o + 1));
        o + 1
    } else {
        assert(s.skip(0) =~= s);
        0
    }
}

/// `trim(s)` is the piece of `s` that starts at `off`.
proof fn lemma_trim_sub(s: Seq<char>) -> (off: int)
    ensures
        0 <= off,
        off + trim(s).len() <= s.len(),
        forall|j: int| 0 <= j < trim(s).len() ==> trim(s)[j] == s[off + j],
{
    let off = lemma_trim_start_sub(s);
    lemma_trim_end_props(trim_start(s));
    off
}

proof fn lemma_pairs_clean(lines: Seq<Seq<char>>)
    ensures
        forall|i: int|
            0 <= i < pairs_of(lines).len() ==> {
                let p = #[trigger] pairs_of(lines)[i];
                &&& p.0.len() > 0 && trim(p.0) == p.0
                &&& p.1.len() > 0 && trim(p.1) == p.1
                &&& !p.0.contains('=')
                &&& p.0[0] != '#'
                &&& !starts_with(p.0, seq!['/', '/'])
            },
    decreases lines.len(),
{
    if lines.len() > 0 {
        lemma_pairs_clean(lines.drop_last());
        lemma_parse_line_clean(lines.last());
        let prev = pairs_of(lines.drop_last());
        assert forall|i: int| 0 <= i < pairs_of(lines).len() implies {
            let p = #[trigger] pairs_of(lines)[i];
            &&& p.0.len() > 0 && trim(p.0) == p.0
            &&& p.1.len() > 0 && trim(p.1) == p.1
            &&& !p.0.contains('=')
            &&& p.0[0] != '#'
            &&& !starts_with(p.0, seq!['/', '/'])
        } by {
            if i < prev.len() {
                assert(pairs_of(lines)[i] == prev[i]);
            }
        }
    }
}

proof fn lemma_parse_line_clean(line: Seq<char>)
    ensures
        parse_line(line) matches Some(p) ==> {
            &&& p.0.len() > 0 && trim(p.0) == p.0
            &&& p.1.len() > 0 && trim(p.1) == p.1
            &&& !p.0.contains('=')
            &&& p.0[0] != '#'
            &&& !starts_with(p.0, seq!['/', '/'])
        },
{
    let t = trim(line);
    if !(t.len() == 0 || t[0] == '#' || starts_with(t, seq!['/', '/'])) {
        if let Some(k) = find(t, seq!['=']) {
            lemma_find_from(t, seq!['='], 0);
            let a = trim(t.take(k));
            lemma_trim_idempotent(t.take(k));
            lemma_trim_idempotent(t.skip(k + 1));
            assert forall|j: int| 0 <= j < t.take(k).len() implies t.take(k)[j] != '=' by {
                if t.take(k)[j] == '=' {
                    assert(t.subrange(j, j + 1) =~= seq!['=']);
                    assert(matches_at(t, seq!['='], j));
                }
            }
            if a.contains('=') {
                let j = choose|j: int| 0 <= j < a.len() && a[j] == '=';
                let off = lemma_trim_sub(t.take(k));
                assert(a[j] == t.take(k)[off + j]);
            }
            if a.len() > 0 && trim(t.skip(k + 1)).len() > 0 {
                let u = t.take(k);
                lemma_trim_first(line);
                lemma_trim_end_props(u);
                assert(u.len() > 0) by {
                    lemma_trim_end_props(trim_start(u));
                    let o = lemma_trim_start_sub(u);
                }
                assert(u[0] == t[0]);
                assert(trim_start(u) == u);
                assert(a == u.take(a.len() as int));
                assert(a[0] == t[0]);
                if starts_with(a, seq!['/', '/']) {
                    assert(a.take(2)[1] == a[1]);
                    assert(a[1] == t[1]);
                    assert(t.take(2) =~= seq!['/', '/']);
                }
            }
        }
    }
}

proof fn lemma_trim_start_first(s: Seq<char>)
    ensures
        trim_start(s).len() > 0 ==> !is_ws(trim_start(s)[0]),
    decreases s.len(),
{
    if s.len() > 0 && is_ws(s[0]) {
        lemma_trim_start_first(s.drop_first());
    }
}

/// A trimmed text does not start with white space.
proof fn lemma_trim_first(s: Seq<char>)
    ensures
        trim(s).len() > 0 ==> !is_ws(trim(s)[0]),
{
    lemma_trim_start_first(s);
    lemma_trim_end_props(trim_start(s));
}

/// A line whose text, once trimmed, starts with `#` or `//` is a comment,
/// however far it is indented: it gives no pair.
pub proof fn law_comment_lines_give_nothing(line: Seq<char>)
    requires
        trim(line).len() > 0,
        trim(line)[0] == '#' || starts_with(trim(line), seq!['/', '/']),
    ensures
        parse_line(line) is None,
{
}


/// Trimming leaves alone a text that neither starts nor ends with white
/// space.
proof fn lemma_trim_solid_ends(s: Seq<char>)
    requires
        s.len() > 0,
        !is_ws(s[0]),
        !is_ws(s.last()),
    ensures
        trim(s) == s,
{
    assert(trim_start(s) == s);
    assert(trim_end(s) == s);
}

/// A trimmed, non-empty text neither starts nor ends with white space.
proof fn lemma_trimmed_ends(s: Seq<char>)
    requires
        s.len() > 0,
        trim(s) == s,
    ensures
        !is_ws(s[0]),
        !is_ws(s.last()),
{
    lemma_trim_first(s);
    lemma_trim_end_props(trim_start(s));
}

/// A line written `turkish = arabic`, with both sides trimmed and
/// non-empty and a Turkish side that has no `=` and is not a comment,
/// reads back as exactly that pair.
pub proof fn law_parse_line_round_trip(tr: Seq<char>, ar: Seq<char>)
    requires
        tr.len() > 0,
        trim(tr) == tr,
        !tr.contains('='),
        tr[0] != '#',
        !starts_with(tr, seq!['/', '/']),
        ar.len() > 0,
        trim(ar) == ar,
    ensures
        parse_line(tr + seq![' ', '=', ' '] + ar) == Some((tr, ar)),
{
    let line = tr + seq![' ', '=', ' '] + ar;
    let n = tr.len() as int;
    let k = n + 1;
    lemma_trimmed_ends(tr);
    lemma_trimmed_ends(ar);
    assert(line[0] == tr[0]);
    assert(line.last() == ar.last());
    lemma_trim_solid_ends(line);
    let t = trim(line);
    assert(t == line);
    assert(t.subrange(k, k + 1) =~= seq!['=']);
    assert(matches_at(t, seq!['='], k));
    assert forall|m: int| 0 <= m < k implies !matches_at(t, seq!['='], m) by {
        if matches_at(t, seq!['='], m) {
            assert(t.subrange(m, m + 1)[0] == t[m]);
            if m < n {
                assert(t[m] == tr[m]);
                assert(tr.contains('='));
            } else {
                assert(t[n] == ' ');
            }
        }
    }
    lemma_find_from(t, seq!['='], 0);
    assert(find(t, seq!['=']) == Some(k));
    if starts_with(t, seq!['/', '/']) {
        assert(t.take(2)[0] == '/' && t.take(2)[1] == '/');
        if n >= 2 {
            assert(tr.take(2) =~= seq!['/', '/']);
        } else {
            assert(t[1] == ' ');
        }
    }
    let u = t.take(k);
    assert(u =~= tr.push(' '));
    assert(trim_start(u) == u);
    assert(u.drop_last() =~= tr);
    assert(trim_end(u) == trim_end(tr));
    assert(trim_end(tr) == tr);
    let v = t.skip(k + 1);
    assert(v =~= seq![' '] + ar);
    assert(v.drop_first() =~= ar);
    assert(trim_start(v) == trim_start(ar));
    assert(trim_start(ar) == ar);
    assert(trim_end(ar) == ar);
}

} // verus!
