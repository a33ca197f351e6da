//! The non-numeric parts of the OPUS-MT translator: finding the ONNX
//! models' inputs and outputs by name, pairing the decoder's key/value
//! cache tensors, the decoding limits, and the tokenizer round trip around
//! the beam search.

use tokenizers::decoders::DecoderWrapper;
use tokenizers::models::ModelWrapper;
use tokenizers::processors::PostProcessorWrapper;
use tokenizers::{Decoder, PostProcessor, Tokenizer};
use vstd::prelude::*;

use crate::text::{
    chars_of, contains, dec, find, find_exec, lemma_find_from, owned, pair_views, push_dec, push_str,
    starts_with,
    string_of, string_of_range, trim, trim_end, trim_start, trim_str, views,
};

verus! {

#[verifier::external_type_specification]
#[verifier::external_body]
pub struct ExTokenizer(tokenizers::Tokenizer);

#[verifier::external_type_specification]
#[verifier::external_body]
pub struct ExDecoderWrapper(tokenizers::decoders::DecoderWrapper);

#[verifier::external_type_specification]
#[verifier::external_body]
pub struct ExPostProcessorWrapper(tokenizers::processors::PostProcessorWrapper);

// ---------------------------------------------------------------------------
// model input/output names
// ---------------------------------------------------------------------------

/// Which model input or output to look for.
#[derive(PartialEq, Eq, Structural, Clone, Copy)]
pub enum NameRule {
    /// decoder token ids: ends with "input_ids" or contains "decoder_input"
    TokenInput,
    /// encoder hidden states: contains "hidden"
    Hidden,
    /// attention mask: contains "mask"
    Mask,
    /// exactly "logits"
    Logits,
}

/// `str::ends_with`.
pub open spec fn ends_with(s: Seq<char>, p: Seq<char>) -> bool {
    p.len() <= s.len() && s.skip(s.len() - p.len()) == p
}

pub open spec fn rule_matches(rule: NameRule, n: Seq<char>) -> bool {
    match rule {
        NameRule::TokenInput => ends_with(n, "input_ids"@) || contains(n, "decoder_input"@),
        NameRule::Hidden => contains(n, "hidden"@),
        NameRule::Mask => contains(n, "mask"@),
        NameRule::Logits => n == "logits"@,
    }
}

pub open spec fn not_found_message(what: Seq<char>) -> Seq<char> {
    what + " not found in model I/O"@
}

fn ends_with_exec(v: &Vec<char>, p: &Vec<char>) -> (r: bool)
    ensures
        r == ends_with(v@, p@),
{
    if p.len() > v.len() {
        return false;
    }
    let off = v.len() - p.len();
    let mut k: usize = 0;
    while k < p.len()
        invariant
            k <= p.len(),
            off + p.len() == v.len(),
            forall|m: int| 0 <= m < k ==> v@[off + m] == p@[m],
        decreases p.len() - k,
    {
        if v[off + k] != p[k] {
            assert(v@.skip(off as int)[k as int] != p@[k as int]);
            return false;
        }
        k += 1;
    }
    assert(v@.skip(off as int) =~= p@);
    true
}

fn rule_matches_exec(rule: NameRule, n: &str) -> (r: bool)
    ensures
        r == rule_matches(rule, n@),
{
    let v = chars_of(n);
    match rule {
        NameRule::TokenInput => ends_with_exec(&v, &chars_of("input_ids")) || find_exec(
            &v,
            &chars_of("decoder_input"),
        ).is_some(),
        NameRule::Hidden => find_exec(&v, &chars_of("hidden")).is_some(),
        NameRule::Mask => find_exec(&v, &chars_of("mask")).is_some(),
        NameRule::Logits => crate::model::eq_chars(&v, &chars_of("logits")),
    }
}

/// The first name from index `i` on that the rule accepts.
pub open spec fn first_match(names: Seq<Seq<char>>, rule: NameRule, i: int) -> Option<Seq<char>>
    decreases names.len() - i,
{
    if i < 0 || i >= names.len() {
        None
    } else if rule_matches(rule, names[i]) {
        Some(names[i])
    } else {
        first_match(names, rule, i + 1)
    }
}

/// What `find_name` returns.
pub open spec fn find_name_spec(names: Seq<Seq<char>>, rule: NameRule, what: Seq<char>) -> Result<
    Seq<char>,
    Seq<char>,
> {
    match first_match(names, rule, 0) {
        Some(n) => Ok(n),
        None => Err(not_found_message(what)),
    }
}

pub open spec fn res_v(r: Result<String, String>) -> Result<Seq<char>, Seq<char>> {
    match r {
        Ok(s) => Ok(s@),
        Err(e) => Err(e@),
    }
}

/// The first name that the rule accepts, or the message naming `what`.
pub fn find_name(names: &Vec<String>, rule: NameRule, what: &str) -> (r: Result<String, String>)
    ensures
        res_v(r) == find_name_spec(views(names@), rule, what@),
{
    let ghost ns = views(names@);
    let mut i: usize = 0;
    while i < names.len()
        invariant
            i <= names.len(),
            ns == views(names@),
            first_match(ns, rule, 0) == first_match(ns, rule, i as int),
        decreases names.len() - i,
    {
        assert(ns[i as int] == names@[i as int]@);
        if rule_matches_exec(rule, names[i].as_str()) {
            return Ok(names[i].clone());
        }
        i += 1;
    }
    let mut m = String::new();
    push_str(&mut m, what);
    push_str(&mut m, " not found in model I/O");
    assert(m@ =~= not_found_message(what@));
    Err(m)
}

// ---------------------------------------------------------------------------
// key/value cache pairing
// ---------------------------------------------------------------------------

/// What follows the first '.' of a name ("" when there is none).
pub open spec fn suffix(n: Seq<char>) -> Seq<char> {
    match find(n, seq!['.']) {
        Some(k) => n.skip(k + 1),
        None => Seq::<char>::empty(),
    }
}

/// The step-1 output that feeds the cached decoder's input `past`.
pub open spec fn present_of(past: Seq<char>) -> Seq<char> {
    "present."@ + suffix(past)
}

pub open spec fn lacks_message(present: Seq<char>, past: Seq<char>) -> Seq<char> {
    "step-1 model lacks "@ + present + " (needed for past "@ + past + ")"@
}

pub open spec fn incomplete_message(n_self: nat, n_cross: nat) -> Seq<char> {
    "KV cache pairing incomplete (self="@ + dec(n_self) + " cross="@ + dec(n_cross) + ")"@
}

pub type NamePairs = Seq<(Seq<char>, Seq<char>)>;

/// Pairs (past input, present output) for the cached decoder's inputs,
/// scanned in order: self-attention (".decoder.") and cross-attention
/// (".encoder.") caches, or the first missing present output.
pub open spec fn pair_scan(d1_in: Seq<Seq<char>>, d0_out: Seq<Seq<char>>) -> Result<
    (NamePairs, NamePairs),
    Seq<char>,
>
    decreases d1_in.len(),
{
    if d1_in.len() == 0 {
        Ok((seq![], seq![]))
    } else {
        match pair_scan(d1_in.drop_last(), d0_out) {
            Err(e) => Err(e),
            Ok((sc, cc)) => {
                let past = d1_in.last();
                if !starts_with(past, "past_key_values"@) {
                    Ok((sc, cc))
                } else {
                    let present = present_of(past);
                    if !d0_out.contains(present) {
                        Err(lacks_message(present, past))
                    } else if contains(past, ".decoder."@) {
                        Ok((sc.push((past, present)), cc))
                    } else if contains(past, ".encoder."@) {
                        Ok((sc, cc.push((past, present))))
                    } else {
                        Ok((sc, cc))
                    }
                }
            },
        }
    }
}

/// The cache pairing `Pair::load` uses: both kinds must be present.
pub open spec fn pair_kv_spec(d1_in: Seq<Seq<char>>, d0_out: Seq<Seq<char>>) -> Result<
    (NamePairs, NamePairs),
    Seq<char>,
> {
    match pair_scan(d1_in, d0_out) {
        Err(e) => Err(e),
        Ok((sc, cc)) => if sc.len() == 0 || cc.len() == 0 {
            Err(incomplete_message(sc.len(), cc.len()))
        } else {
            Ok((sc, cc))
        },
    }
}

fn starts_with_exec(v: &Vec<char>, p: &Vec<char>) -> (r: bool)
    ensures
        r == starts_with(v@, p@),
{
    if p.len() > v.len() {
        return false;
    }
    let mut k: usize = 0;
    while k < p.len()
        invariant
            k <= p.len() <= v.len(),
            forall|m: int| 0 <= m < k ==> v@[m] == p@[m],
        decreases p.len() - k,
    {
        if v[k] != p[k] {
            assert(v@.take(p.len() as int)[k as int] != p@[k as int]);
            return false;
        }
        k += 1;
    }
    assert(v@.take(p.len() as int) =~= p@);
    true
}

fn present_name(past: &Vec<char>) -> (r: String)
    ensures
        r@ == present_of(past@),
{
    let mut r = String::new();
    push_str(&mut r, "present.");
    let dot: Vec<char> = vec!['.'];
    assert(dot@ =~= seq!['.']);
    match find_exec(past, &dot) {
        Some(k) => {
            proof {
                lemma_find_from(past@, dot@, 0);
            }
            let pl = past.len();
            assert(k + 1 <= pl);
            let s = string_of_range(past, k + 1, pl);
            assert(s@ =~= past@.skip(k + 1));
            push_str(&mut r, s.as_str());
        },
        None => {},
    }
    assert(r@ =~= present_of(past@));
    r
}

fn contains_name(names: &Vec<String>, n: &String) -> (r: bool)
    ensures
        r == views(names@).contains(n@),
{
    let mut i: usize = 0;
    let v = chars_of(n.as_str());
    while i < names.len()
        invariant
            i <= names.len(),
            v@ == n@,
            forall|j: int| 0 <= j < i ==> views(names@)[j] != n@,
        decreases names.len() - i,
    {
        if crate::model::eq_chars(&chars_of(names[i].as_str()), &v) {
            assert(views(names@)[i as int] == n@);
            return true;
        }
        i += 1;
    }
    false
}

/// Pairs the cached decoder's `past_key_values.*` inputs with the step-1
/// decoder's `present.*` outputs.
pub fn pair_kv_cache(d1_in: &Vec<String>, d0_out: &Vec<String>) -> (r: Result<
    (Vec<(String, String)>, Vec<(String, String)>),
    String,
>)
    ensures
        match r {
            Ok((sc, cc)) => pair_kv_spec(views(d1_in@), views(d0_out@)) == Ok::<
                (NamePairs, NamePairs),
                Seq<char>,
            >((pair_views(sc@), pair_views(cc@))),
            Err(e) => pair_kv_spec(views(d1_in@), views(d0_out@)) == Err::<
                (NamePairs, NamePairs),
                Seq<char>,
            >(e@),
        },
{
    let ghost din = views(d1_in@);
    let ghost dout = views(d0_out@);
    let mut sc: Vec<(String, String)> = Vec::new();
    let mut cc: Vec<(String, String)> = Vec::new();
    let pkv = chars_of("past_key_values");
    let dec_pat = chars_of(".decoder.");
    let enc_pat = chars_of(".encoder.");
    let mut i: usize = 0;
    assert(din.take(0) =~= Seq::<Seq<char>>::empty());
    assert(pair_views(sc@) =~= Seq::<(Seq<char>, Seq<char>)>::empty());
    assert(pair_views(cc@) =~= Seq::<(Seq<char>, Seq<char>)>::empty());
    while i < d1_in.len()
        invariant
            i <= d1_in.len(),
            din == views(d1_in@),
            dout == views(d0_out@),
            pkv@ == "past_key_values"@,
            dec_pat@ == ".decoder."@,
            enc_pat@ == ".encoder."@,
            pair_scan(din.take(i as int), dout) == Ok::<(NamePairs, NamePairs), Seq<char>>(
                (pair_views(sc@), pair_views(cc@)),
            ),
        decreases d1_in.len() - i,
    {
        let past = chars_of(d1_in[i].as_str());
        proof {
            assert(din[i as int] == d1_in@[i as int]@);
            assert(din.take(i + 1).drop_last() =~= din.take(i as int));
            assert(din.take(i + 1).last() == past@);
        }
        if starts_with_exec(&past, &pkv) {
            let present = present_name(&past);
            if !contains_name(d0_out, &present) {
                let mut m = String::new();
                push_str(&mut m, "step-1 model lacks ");
                push_str(&mut m, present.as_str());
                push_str(&mut m, " (needed for past ");
                push_str(&mut m, d1_in[i].as_str());
                push_str(&mut m, ")");
                assert(m@ =~= lacks_message(present@, past@));
                proof {
                    lemma_scan_err_sticks(din, dout, i as int + 1);
                }
                return Err(m);
            }
            assert(dout.contains(present_of(past@)));
            let ghost psc = pair_views(sc@);
            let ghost pcc = pair_views(cc@);
            if find_exec(&past, &dec_pat).is_some() {
                let p = d1_in[i].clone();
                sc.push((p, present));
                assert(pair_views(sc@) =~= psc.push((past@, present_of(past@))));
                assert(contains(past@, ".decoder."@));
            } else if find_exec(&past, &enc_pat).is_some() {
                let p = d1_in[i].clone();
                cc.push((p, present));
                assert(pair_views(cc@) =~= pcc.push((past@, present_of(past@))));
                assert(!contains(past@, ".decoder."@));
                assert(contains(past@, ".encoder."@));
            } else {
                assert(!contains(past@, ".decoder."@));
                assert(!contains(past@, ".encoder."@));
            }
            assert(starts_with(past@, "past_key_values"@));
            assert(pair_scan(din.take(i + 1), dout) == Ok::<(NamePairs, NamePairs), Seq<char>>(
                (pair_views(sc@), pair_views(cc@)),
            ));
        } else {
            assert(!starts_with(past@, "past_key_values"@));
        }
        i += 1;
    }
    assert(din.take(d1_in.len() as int) =~= din);
    if sc.len() == 0 || cc.len() == 0 {
        let mut m = String::new();
        push_str(&mut m, "KV cache pairing incomplete (self=");
        push_dec(&mut m, sc.len() as u64);
        push_str(&mut m, " cross=");
        push_dec(&mut m, cc.len() as u64);
        push_str(&mut m, ")");
        assert(m@ =~= incomplete_message(sc@.len(), cc@.len()));
        return Err(m);
    }
    Ok((sc, cc))
}

proof fn lemma_scan_err_sticks(d1: Seq<Seq<char>>, d0: Seq<Seq<char>>, i: int)
    requires
        0 <= i <= d1.len(),
        pair_scan(d1.take(i), d0) is Err,
    ensures
        pair_scan(d1, d0) == pair_scan(d1.take(i), d0),
    decreases d1.len() - i,
{
    if i < d1.len() {
        assert(d1.take(i + 1).drop_last() =~= d1.take(i));
        lemma_scan_err_sticks(d1, d0, i + 1);
    } else {
        assert(d1.take(i) =~= d1);
    }
}

// ---------------------------------------------------------------------------
// decoding limits
// ---------------------------------------------------------------------------

/// Marian positional embeddings cap at 512; the source is cut with a margin.
pub const MAX_ENC_TOKENS: usize = 448;

/// Longest translation, in tokens: the model's `max_length` capped at 256
/// (256 when the metadata gives none).
pub fn decoder_max_len(meta_max: usize) -> (r: usize)
    ensures
        r == if meta_max == 0 {
            256
        } else if meta_max < 256 {
            meta_max
        } else {
            256
        },
{
    if meta_max == 0 {
        256
    } else if meta_max < 256 {
        meta_max
    } else {
        256
    }
}

/// The decoder geometry the model metadata must give.
pub fn check_meta(heads: usize, head_dim: usize) -> (r: Result<(), String>)
    ensures
        r is Ok <==> heads != 0 && head_dim != 0,
        r matches Err(e) ==> e@ == "meta.json missing num_decoder_heads/head_dim"@,
{
    if heads == 0 || head_dim == 0 {
        let mut m = String::new();
        push_str(&mut m, "meta.json missing num_decoder_heads/head_dim");
        assert(m@ =~= "meta.json missing num_decoder_heads/head_dim"@);
        Err(m)
    } else {
        Ok(())
    }
}

/// Threads for the ONNX sessions: available parallelism (2 when unknown)
/// clamped to 1..=8.
pub fn mt_threads(available: Option<usize>) -> (r: usize)
    ensures
        r == match available {
            Some(n) => if n < 1 {
                1
            } else if n > 8 {
                8
            } else {
                n
            },
            None => 2,
        },
{
    let n = match available {
        Some(n) => n,
        None => 2,
    };
    if n < 1 {
        1
    } else if n > 8 {
        8
    } else {
        n
    }
}

// ---------------------------------------------------------------------------
// everything the translator resolves before it runs
// ---------------------------------------------------------------------------

/// The input and output names of the three ONNX sessions.
pub struct ModelIo {
    pub enc_in: Vec<String>,
    pub enc_out: Vec<String>,
    pub d0_in: Vec<String>,
    pub d0_out: Vec<String>,
    pub d1_in: Vec<String>,
    pub d1_out: Vec<String>,
}

/// Names and limits the translator runs with.
pub struct ModelNames {
    pub enc_in: (String, String),
    pub enc_out: String,
    pub d0_tok: String,
    pub d0_hidden: String,
    pub d0_mask: String,
    pub d1_tok: String,
    pub d1_mask: String,
    pub logits0: String,
    pub logits1: String,
    pub self_cache: Vec<(String, String)>,
    pub cross_cache: Vec<(String, String)>,
    pub max_len: usize,
}

pub struct IoV {
    pub enc_in: Seq<Seq<char>>,
    pub enc_out: Seq<Seq<char>>,
    pub d0_in: Seq<Seq<char>>,
    pub d0_out: Seq<Seq<char>>,
    pub d1_in: Seq<Seq<char>>,
    pub d1_out: Seq<Seq<char>>,
}

pub open spec fn io_v(io: ModelIo) -> IoV {
    IoV {
        enc_in: views(io.enc_in@),
        enc_out: views(io.enc_out@),
        d0_in: views(io.d0_in@),
        d0_out: views(io.d0_out@),
        d1_in: views(io.d1_in@),
        d1_out: views(io.d1_out@),
    }
}

/// `(d0_tok, d0_hidden, d0_mask, d1_tok, d1_mask, logits0, logits1)`.
pub type FoundV = (Seq<char>, Seq<char>, Seq<char>, Seq<char>, Seq<char>, Seq<char>, Seq<char>);

/// The seven names looked up, in the order they are looked up; the first
/// missing one gives the error.
pub open spec fn found_spec(io: IoV) -> Result<FoundV, Seq<char>> {
    match find_name_spec(io.d0_in, NameRule::TokenInput, "decoder token input (step 1)"@) {
        Err(e) => Err(e),
        Ok(a) => match find_name_spec(io.d0_in, NameRule::Hidden, "encoder_hidden_states (step 1)"@) {
            Err(e) => Err(e),
            Ok(b) => match find_name_spec(io.d0_in, NameRule::Mask, "attention mask (step 1)"@) {
                Err(e) => Err(e),
                Ok(c) => match find_name_spec(
                    io.d1_in,
                    NameRule::TokenInput,
                    "decoder token input (cached)"@,
                ) {
                    Err(e) => Err(e),
                    Ok(d) => match find_name_spec(io.d1_in, NameRule::Mask, "attention mask (cached)"@) {
                        Err(e) => Err(e),
                        Ok(f) => match find_name_spec(io.d0_out, NameRule::Logits, "logits (step 1)"@) {
                            Err(e) => Err(e),
                            Ok(g) => match find_name_spec(
                                io.d1_out,
                                NameRule::Logits,
                                "logits (cached)"@,
                            ) {
                                Err(e) => Err(e),
                                Ok(h) => Ok((a, b, c, d, f, g, h)),
                            },
                        },
                    },
                },
            },
        },
    }
}

pub open spec fn no_outputs_message() -> Seq<char> {
    "encoder has no outputs"@
}

pub open spec fn meta_message() -> Seq<char> {
    "meta.json missing num_decoder_heads/head_dim"@
}

/// What `resolve_model_names` gives: the encoder's first output, the seven
/// names, the cache pairing, the metadata check and the length limit, the
/// first failure winning. `None` where the encoder has fewer than two
/// inputs although all else resolved: there is no second input to take.
pub open spec fn names_spec(io: IoV, heads: usize, head_dim: usize, meta_max: usize) -> Option<
    Result<
        (
            (Seq<char>, Seq<char>),
            Seq<char>,
            FoundV,
            NamePairs,
            NamePairs,
            usize,
        ),
        Seq<char>,
    >,
> {
    if io.enc_out.len() == 0 {
        Some(Err(no_outputs_message()))
    } else {
        match found_spec(io) {
            Err(e) => Some(Err(e)),
            Ok(f) => match pair_kv_spec(io.d1_in, io.d0_out) {
                Err(e) => Some(Err(e)),
                Ok((sc, cc)) => if heads == 0 || head_dim == 0 {
                    Some(Err(meta_message()))
                } else if io.enc_in.len() < 2 {
                    None
                } else {
                    Some(
                        Ok(
                            (
                                (io.enc_in[0], io.enc_in[1]),
                                io.enc_out[0],
                                f,
                                sc,
                                cc,
                                if meta_max == 0 {
                                    256
                                } else if meta_max < 256 {
                                    meta_max
                                } else {
                                    256
                                },
                            ),
                        ),
                    )
                },
            },
        }
    }
}

pub open spec fn names_v(m: ModelNames) -> (
    (Seq<char>, Seq<char>),
    Seq<char>,
    FoundV,
    NamePairs,
    NamePairs,
    usize,
) {
    (
        (m.enc_in.0@, m.enc_in.1@),
        m.enc_out@,
        (m.d0_tok@, m.d0_hidden@, m.d0_mask@, m.d1_tok@, m.d1_mask@, m.logits0@, m.logits1@),
        pair_views(m.self_cache@),
        pair_views(m.cross_cache@),
        m.max_len,
    )
}

fn find_all(io: &ModelIo) -> (r: Result<(String, String, String, String, String, String, String), String>)
    ensures
        match r {
            Ok(t) => found_spec(io_v(*io)) == Ok::<FoundV, Seq<char>>(
                (t.0@, t.1@, t.2@, t.3@, t.4@, t.5@, t.6@),
            ),
            Err(e) => found_spec(io_v(*io)) == Err::<FoundV, Seq<char>>(e@),
        },
{
    let a = match find_name(&io.d0_in, NameRule::TokenInput, "decoder token input (step 1)") {
        Ok(x) => x,
        Err(e) => return Err(e),
    };
    let b = match find_name(&io.d0_in, NameRule::Hidden, "encoder_hidden_states (step 1)") {
        Ok(x) => x,
        Err(e) => return Err(e),
    };
    let c = match find_name(&io.d0_in, NameRule::Mask, "attention mask (step 1)") {
        Ok(x) => x,
        Err(e) => return Err(e),
    };
    let d = match find_name(&io.d1_in, NameRule::TokenInput, "decoder token input (cached)") {
        Ok(x) => x,
        Err(e) => return Err(e),
    };
    let f = match find_name(&io.d1_in, NameRule::Mask, "attention mask (cached)") {
        Ok(x) => x,
        Err(e) => return Err(e),
    };
    let g = match find_name(&io.d0_out, NameRule::Logits, "logits (step 1)") {
        Ok(x) => x,
        Err(e) => return Err(e),
    };
    let h = match find_name(&io.d1_out, NameRule::Logits, "logits (cached)") {
        Ok(x) => x,
        Err(e) => return Err(e),
    };
    Ok((a, b, c, d, f, g, h))
}

/// Resolves, from the sessions' input and output names and the model
/// metadata, everything the translator runs with (see `names_spec`).
pub fn resolve_model_names(io: &ModelIo, heads: usize, head_dim: usize, meta_max: usize) -> (r:
    Option<Result<ModelNames, String>>)
    ensures
        match names_spec(io_v(*io), heads, head_dim, meta_max) {
            None => r is None,
            Some(Err(e)) => r matches Some(Err(x)) && x@ == e,
            Some(Ok(n)) => r matches Some(Ok(m)) && names_v(m) == n,
        },
{
    if io.enc_out.len() == 0 {
        return Some(Err(owned("encoder has no outputs")));
    }
    let found = match find_all(io) {
        Ok(t) => t,
        Err(e) => return Some(Err(e)),
    };
    let (sc, cc) = match pair_kv_cache(&io.d1_in, &io.d0_out) {
        Ok(p) => p,
        Err(e) => return Some(Err(e)),
    };
    match check_meta(heads, head_dim) {
        Err(e) => return Some(Err(e)),
        Ok(_) => {},
    }
    if io.enc_in.len() < 2 {
        return None;
    }
    let ghost iov = io_v(*io);
    assert(iov.enc_in[0] == io.enc_in@[0]@);
    assert(iov.enc_in[1] == io.enc_in@[1]@);
    assert(iov.enc_out[0] == io.enc_out@[0]@);
    let (a, b, c, d, f, g, h) = found;
    Some(
        Ok(
            ModelNames {
                enc_in: (io.enc_in[0].clone(), io.enc_in[1].clone()),
                enc_out: io.enc_out[0].clone(),
                d0_tok: a,
                d0_hidden: b,
                d0_mask: c,
                d1_tok: d,
                d1_mask: f,
                logits0: g,
                logits1: h,
                self_cache: sc,
                cross_cache: cc,
                max_len: decoder_max_len(meta_max),
            },
        ),
    )
}

// ---------------------------------------------------------------------------
// tokenizer round trip
// ---------------------------------------------------------------------------

// The settings of a loaded tokenizer that decide whether encoding and
// decoding run to completion.

/// What `Tokenizer::get_truncation` holds: `(max_length, stride)`.
pub uninterp spec fn truncation(tok: Tokenizer) -> Option<(usize, usize)>;

/// Calls `Tokenizer::get_truncation` and picks the maximum length and the
/// stride; the result is named `truncation`.
#[verifier::external_body]
fn truncation_of(tok: &Tokenizer) -> (r: Option<(usize, usize)>)
    ensures
        r == truncation(*tok),
{
    tok.get_truncation().map(|t| (t.max_length, t.stride))
}

/// What `Tokenizer::get_post_processor` holds.
pub uninterp spec fn post_processor(tok: Tokenizer) -> Option<PostProcessorWrapper>;

/// Calls `Tokenizer::get_post_processor` and clones what it holds; the
/// result is named `post_processor`.
#[verifier::external_body]
fn post_processor_of(tok: &Tokenizer) -> (r: Option<PostProcessorWrapper>)
    ensures
        r == post_processor(*tok),
{
    tok.get_post_processor().cloned()
}

/// What `PostProcessor::added_tokens(false)` returns for a post-processor:
/// how many special tokens it adds to a single sequence.
pub uninterp spec fn added_tokens(p: PostProcessorWrapper) -> usize;

/// Calls `PostProcessor::added_tokens(false)`; the result is named
/// `added_tokens`.
#[verifier::external_body]
fn added_tokens_of(p: &PostProcessorWrapper) -> (r: usize)
    ensures
        r == added_tokens(*p),
{
    p.added_tokens(false)
}

/// What `Tokenizer::get_decoder` holds.
pub uninterp spec fn decoder(tok: Tokenizer) -> Option<DecoderWrapper>;

/// Calls `Tokenizer::get_decoder` and clones what it holds; the result is
/// named `decoder`.
#[verifier::external_body]
fn decoder_of(tok: &Tokenizer) -> (r: Option<DecoderWrapper>)
    ensures
        r == decoder(*tok),
{
    tok.get_decoder().cloned()
}

/// The variant of a `DecoderWrapper`, with what the checks below read of
/// it: the inner decoders of a `Sequence`, the cuts of a `Strip`.
pub enum DecoderKind {
    Bpe,
    ByteLevel,
    WordPiece,
    Metaspace,
    Ctc,
    Sequence(Vec<DecoderWrapper>),
    Replace,
    Fuse,
    Strip { content: char, start: usize, stop: usize },
    ByteFallback,
}

/// The variant of a decoder (see `DecoderKind`).
pub uninterp spec fn decoder_kind(d: DecoderWrapper) -> DecoderKind;

/// Tells the variants of a `DecoderWrapper` apart, with the decoders of a
/// `Sequence` (`get_decoders`) and the fields of a `Strip`; the result is
/// named `decoder_kind`.
#[verifier::external_body]
fn kind_of(d: &DecoderWrapper) -> (r: DecoderKind)
    ensures
        r == decoder_kind(*d),
{
    match d {
        DecoderWrapper::BPE(_) => DecoderKind::Bpe,
        DecoderWrapper::ByteLevel(_) => DecoderKind::ByteLevel,
        DecoderWrapper::WordPiece(_) => DecoderKind::WordPiece,
        DecoderWrapper::Metaspace(_) => DecoderKind::Metaspace,
        DecoderWrapper::CTC(_) => DecoderKind::Ctc,
        DecoderWrapper::Sequence(q) => DecoderKind::Sequence(q.get_decoders().to_vec()),
        DecoderWrapper::Replace(_) => DecoderKind::Replace,
        DecoderWrapper::Fuse(_) => DecoderKind::Fuse,
        DecoderWrapper::Strip(t) => DecoderKind::Strip { content: t.content, start: t.start, stop: t.stop },
        DecoderWrapper::ByteFallback(_) => DecoderKind::ByteFallback,
    }
}

/// Encoding runs to completion: with truncation set, the special tokens
/// the post-processor adds fit in the maximum length (it is reduced by
/// them), and the stride is below what is left, unless nothing is.
pub open spec fn encode_safe(tok: Tokenizer) -> bool {
    match truncation(tok) {
        None => true,
        Some((m, stride)) => {
            let a: int = match post_processor(tok) {
                None => 0,
                Some(p) => added_tokens(p) as int,
            };
            m >= a && (m - a == 0 || stride < m - a)
        },
    }
}

/// Whether encoding with this tokenizer runs to completion (see
/// `encode_safe`).
pub fn encode_is_safe(tok: &Tokenizer) -> (b: bool)
    ensures
        b == encode_safe(*tok),
{
    match truncation_of(tok) {
        None => true,
        Some((m, stride)) => {
            let a: usize = match post_processor_of(tok) {
                None => 0,
                Some(p) => added_tokens_of(&p),
            };
            m >= a && (m - a == 0 || stride < m - a)
        },
    }
}

// What `Tokenizer::decode` does before its decoder runs: each id becomes
// its token (ids without one, and special tokens, are left out).

/// What `Tokenizer::id_to_token` returns: the added token or the model's
/// token for an id.
pub uninterp spec fn id_token(tok: Tokenizer, id: u32) -> Option<Seq<char>>;

/// Calls `Tokenizer::id_to_token`; the result is named `id_token`.
#[verifier::external_body]
fn id_to_token_of(tok: &Tokenizer, id: u32) -> (r: Option<String>)
    ensures
        match r {
            Some(t) => id_token(*tok, id) == Some(t@),
            None => id_token(*tok, id) is None,
        },
{
    tok.id_to_token(id)
}

/// What `AddedVocabulary::is_special_token` says of a token, for the
/// tokenizer's added vocabulary.
pub uninterp spec fn special_token(tok: Tokenizer, token: Seq<char>) -> bool;

/// Calls `AddedVocabulary::is_special_token` on the tokenizer's added
/// vocabulary (`get_added_vocabulary`); the result is named
/// `special_token`.
#[verifier::external_body]
fn is_special_of(tok: &Tokenizer, token: &str) -> (r: bool)
    ensures
        r == special_token(*tok, token@),
{
    tok.get_added_vocabulary().is_special_token(token)
}

/// The tokens `Tokenizer::decode(ids, true)` hands its decoder.
pub open spec fn decode_tokens(tok: Tokenizer, ids: Seq<u32>) -> Seq<Seq<char>>
    decreases ids.len(),
{
    if ids.len() == 0 {
        seq![]
    } else {
        let prev = decode_tokens(tok, ids.drop_last());
        match id_token(tok, ids.last()) {
            Some(t) => if special_token(tok, t) {
                prev
            } else {
                prev.push(t)
            },
            None => prev,
        }
    }
}

fn decode_tokens_of(tok: &Tokenizer, ids: &[u32]) -> (r: Vec<String>)
    ensures
        views(r@) == decode_tokens(*tok, ids@),
{
    let mut r: Vec<String> = Vec::new();
    let mut i: usize = 0;
    while i < ids.len()
        invariant
            i <= ids@.len(),
            views(r@) == decode_tokens(*tok, ids@.take(i as int)),
        decreases ids.len() - i,
    {
        proof {
            assert(ids@.take(i + 1).drop_last() =~= ids@.take(i as int));
            assert(ids@.take(i + 1).last() == ids@[i as int]);
        }
        match id_to_token_of(tok, ids[i]) {
            Some(t) => {
                if !is_special_of(tok, t.as_str()) {
                    r.push(t);
                    assert(views(r@) =~= views(r@.drop_last()).push(r@.last()@));
                }
            },
            None => {},
        }
        i += 1;
    }
    assert(ids@.take(ids.len() as int) =~= ids@);
    r
}

// `Strip::decode_chain` cuts up to `start` leading and up to `stop`
// trailing `content` characters off each token.

/// The run of `c` that starts `t`, looked for over its first `n`
/// characters.
pub open spec fn lead_run(t: Seq<char>, c: char, n: nat) -> nat
    decreases n,
{
    if n == 0 {
        0
    } else {
        let p = lead_run(t, c, (n - 1) as nat);
        if p == n - 1 && n - 1 < t.len() && t[n - 1] == c {
            n
        } else {
            p
        }
    }
}

/// The run of `c` that ends `t`, looked for over its last `n` characters.
pub open spec fn trail_run(t: Seq<char>, c: char, n: nat) -> nat
    decreases n,
{
    if n == 0 {
        0
    } else {
        let p = trail_run(t, c, (n - 1) as nat);
        if p == n - 1 && n - 1 < t.len() && t[t.len() - n] == c {
            n
        } else {
            p
        }
    }
}

/// `Strip` runs to completion on a token: its cut at the end does not run
/// past a token made only of `c` and shorter than `stop`, and the two cuts
/// do not cross.
pub open spec fn strip_ok(t: Seq<char>, c: char, start: nat, stop: nat) -> bool {
    &&& !(t.len() < stop && trail_run(t, c, t.len()) == t.len())
    &&& lead_run(t, c, start) + trail_run(t, c, stop) <= t.len()
}

proof fn lemma_lead_run(t: Seq<char>, c: char, n: nat, m: nat)
    requires
        n <= m,
    ensures
        lead_run(t, c, n) <= n,
        lead_run(t, c, n) < n ==> lead_run(t, c, m) == lead_run(t, c, n),
    decreases m,
{
    if m > n {
        lemma_lead_run(t, c, n, (m - 1) as nat);
    } else if n > 0 {
        lemma_lead_run(t, c, (n - 1) as nat, (n - 1) as nat);
    }
}

proof fn lemma_trail_run(t: Seq<char>, c: char, n: nat, m: nat)
    requires
        n <= m,
    ensures
        trail_run(t, c, n) <= n,
        trail_run(t, c, n) <= t.len(),
        trail_run(t, c, n) < n ==> trail_run(t, c, m) == trail_run(t, c, n),
    decreases m,
{
    if m > n {
        lemma_trail_run(t, c, n, (m - 1) as nat);
    } else if n > 0 {
        lemma_trail_run(t, c, (n - 1) as nat, (n - 1) as nat);
    }
}

fn strip_token_ok(t: &Vec<char>, c: char, start: usize, stop: usize) -> (r: bool)
    ensures
        r == strip_ok(t@, c, start as nat, stop as nat),
{
    let n = t.len();
    let mut i: usize = 0;
    while i < start && i < n && t[i] == c
        invariant
            i <= start,
            i <= n == t@.len(),
            lead_run(t@, c, i as nat) == i,
        decreases start - i,
    {
        i += 1;
    }
    proof {
        if i < start {
            assert(lead_run(t@, c, (i + 1) as nat) == i);
            lemma_lead_run(t@, c, (i + 1) as nat, start as nat);
        }
    }
    let mut j: usize = 0;
    while j < stop && j < n && t[n - 1 - j] == c
        invariant
            j <= stop,
            j <= n == t@.len(),
            trail_run(t@, c, j as nat) == j,
        decreases stop - j,
    {
        j += 1;
    }
    proof {
        lemma_trail_run(t@, c, n as nat, n as nat);
        if j < stop {
            assert(trail_run(t@, c, (j + 1) as nat) == j);
            lemma_trail_run(t@, c, (j + 1) as nat, stop as nat);
            if n < stop && j < n {
                lemma_trail_run(t@, c, (j + 1) as nat, n as nat);
            }
        }
    }
    !(n < stop && j == n) && i <= n - j
}

fn strip_tokens_ok(toks: &Vec<String>, c: char, start: usize, stop: usize) -> (r: bool)
    ensures
        r == forall|i: int|
            0 <= i < views(toks@).len() ==> strip_ok(
                #[trigger] views(toks@)[i],
                c,
                start as nat,
                stop as nat,
            ),
{
    let mut i: usize = 0;
    while i < toks.len()
        invariant
            i <= toks@.len(),
            forall|k: int|
                0 <= k < i ==> strip_ok(#[trigger] views(toks@)[k], c, start as nat, stop as nat),
        decreases toks.len() - i,
    {
        let v = chars_of(toks[i].as_str());
        if !strip_token_ok(&v, c, start, stop) {
            assert(views(toks@)[i as int] == toks@[i as int]@);
            return false;
        }
        i += 1;
    }
    true
}

// The decoder's steps, run the way `Sequence::decode_chain` runs them: one
// after the other, each on what the last gave, up to the first error.

/// What `Decoder::decode_chain` returns for a decoder and tokens: the new
/// tokens, or the error's message.
pub uninterp spec fn chain(d: DecoderWrapper, tokens: Seq<Seq<char>>) -> Result<
    Seq<Seq<char>>,
    Seq<char>,
>;

pub open spec fn toks_res_v(r: Result<Vec<String>, String>) -> Result<Seq<Seq<char>>, Seq<char>> {
    match r {
        Ok(v) => Ok(views(v@)),
        Err(e) => Err(e@),
    }
}

/// A step other than a sequence runs to completion on these tokens: a
/// `BPE` step needs one (it takes one off their count), a `Strip` step
/// needs each token to pass `strip_ok`.
pub open spec fn step_safe(d: DecoderWrapper, toks: Seq<Seq<char>>) -> bool {
    match decoder_kind(d) {
        DecoderKind::Bpe => toks.len() > 0,
        DecoderKind::Strip { content, start, stop } => forall|i: int|
            0 <= i < toks.len() ==> strip_ok(#[trigger] toks[i], content, start as nat, stop as nat),
        _ => true,
    }
}

/// Calls `Decoder::decode_chain` on a step other than a sequence; an error
/// is handed out as its message. The result is named `chain`.
#[verifier::external_body]
fn decode_chain_of(d: &DecoderWrapper, tokens: Vec<String>) -> (r: Result<Vec<String>, String>)
    requires
        step_safe(*d, views(tokens@)),
        !(decoder_kind(*d) is Sequence),
    ensures
        toks_res_v(r) == chain(*d, views(tokens@)),
{
    match d.decode_chain(tokens) {
        Ok(v) => Ok(v),
        Err(e) => Err(e.to_string()),
    }
}

/// How deep a `Sequence` of decoders is looked into.
pub const DECODER_DEPTH: u32 = 4;

/// What a decoder's `decode_chain` gives, sequences looked into at most
/// `depth` levels deep.
pub open spec fn chain_out(d: DecoderWrapper, toks: Seq<Seq<char>>, depth: nat) -> Result<
    Seq<Seq<char>>,
    Seq<char>,
>
    decreases depth, 0nat, 0int,
{
    match decoder_kind(d) {
        DecoderKind::Sequence(parts) => if depth > 0 {
            parts_out(parts@, 0, toks, (depth - 1) as nat)
        } else {
            Err(Seq::empty())
        },
        _ => chain(d, toks),
    }
}

/// The steps of a sequence from the `k`-th on, run one after the other.
pub open spec fn parts_out(
    parts: Seq<DecoderWrapper>,
    k: int,
    toks: Seq<Seq<char>>,
    depth: nat,
) -> Result<Seq<Seq<char>>, Seq<char>>
    decreases depth, 1nat, parts.len() - k,
{
    if k < 0 || k >= parts.len() {
        Ok(toks)
    } else {
        match chain_out(parts[k], toks, depth) {
            Ok(next) => parts_out(parts, k + 1, next, depth),
            Err(e) => Err(e),
        }
    }
}

/// The decoder runs to completion on these tokens: every step it reaches
/// does, on what the steps before it gave (sequences nested deeper than
/// `depth` are not looked into, and not counted as safe).
pub open spec fn chain_safe(d: DecoderWrapper, toks: Seq<Seq<char>>, depth: nat) -> bool
    decreases depth, 0nat, 0int,
{
    match decoder_kind(d) {
        DecoderKind::Sequence(parts) => depth > 0 && parts_safe(
            parts@,
            0,
            toks,
            (depth - 1) as nat,
        ),
        _ => step_safe(d, toks),
    }
}

/// The steps of a sequence from the `k`-th on run to completion.
pub open spec fn parts_safe(
    parts: Seq<DecoderWrapper>,
    k: int,
    toks: Seq<Seq<char>>,
    depth: nat,
) -> bool
    decreases depth, 1nat, parts.len() - k,
{
    if k < 0 || k >= parts.len() {
        true
    } else {
        chain_safe(parts[k], toks, depth) && match chain_out(parts[k], toks, depth) {
            Ok(next) => parts_safe(parts, k + 1, next, depth),
            Err(_) => true,
        }
    }
}

/// Decoding these ids runs to completion: no decoder (tokens are joined by
/// spaces), or a decoder that does on the ids' tokens (see `chain_safe`).
pub open spec fn decode_safe(tok: Tokenizer, ids: Seq<u32>) -> bool {
    match decoder(tok) {
        None => true,
        Some(d) => chain_safe(d, decode_tokens(tok, ids), DECODER_DEPTH as nat),
    }
}

proof fn lemma_sequence_unfold(
    d: DecoderWrapper,
    parts: Vec<DecoderWrapper>,
    toks: Seq<Seq<char>>,
    depth: nat,
)
    requires
        decoder_kind(d) == DecoderKind::Sequence(parts),
        depth > 0,
    ensures
        chain_safe(d, toks, depth) == parts_safe(parts@, 0, toks, (depth - 1) as nat),
        chain_out(d, toks, depth) == parts_out(parts@, 0, toks, (depth - 1) as nat),
{
    let inner = decoder_kind(d)->Sequence_0;
    assert(chain_safe(d, toks, depth) == (depth > 0 && parts_safe(
        inner@,
        0,
        toks,
        (depth - 1) as nat,
    )));
    assert(chain_out(d, toks, depth) == parts_out(inner@, 0, toks, (depth - 1) as nat));
}

proof fn lemma_parts_step(parts: Seq<DecoderWrapper>, k: int, toks: Seq<Seq<char>>, depth: nat)
    requires
        0 <= k < parts.len(),
    ensures
        parts_safe(parts, k, toks, depth) == (chain_safe(parts[k], toks, depth) && match chain_out(
            parts[k],
            toks,
            depth,
        ) {
            Ok(next) => parts_safe(parts, k + 1, next, depth),
            Err(_) => true,
        }),
        parts_out(parts, k, toks, depth) == match chain_out(parts[k], toks, depth) {
            Ok(next) => parts_out(parts, k + 1, next, depth),
            Err(e) => Err(e),
        },
{
}

/// Runs the decoder's steps as far as they are safe: whether all are, and
/// (where they are) what they give.
fn run_chain(d: &DecoderWrapper, toks: Vec<String>, depth: u32) -> (r: (
    bool,
    Result<Vec<String>, String>,
))
    ensures
        r.0 == chain_safe(*d, views(toks@), depth as nat),
        r.0 ==> toks_res_v(r.1) == chain_out(*d, views(toks@), depth as nat),
    decreases depth,
{
    let ghost t0 = views(toks@);
    match kind_of(d) {
        DecoderKind::Sequence(parts) => {
            if depth == 0 {
                return (false, Ok(toks));
            }
            proof {
                lemma_sequence_unfold(*d, parts, t0, depth as nat);
            }
            let ghost dd = (depth - 1) as nat;
            let mut cur = toks;
            let mut k: usize = 0;
            #[verifier::loop_isolation(false)]
            while k < parts.len()
                invariant
                    depth > 0,
                    dd == depth - 1,
                    k <= parts@.len(),
                    chain_safe(*d, t0, depth as nat) == parts_safe(parts@, k as int, views(cur@), dd),
                    chain_out(*d, t0, depth as nat) == parts_out(parts@, k as int, views(cur@), dd),
                decreases parts.len() - k,
            {
                let ghost cv = views(cur@);
                proof {
                    lemma_parts_step(parts@, k as int, cv, dd);
                }
                let (ok, o) = run_chain(&parts[k], cur, depth - 1);
                if !ok {
                    return (false, Ok(Vec::new()));
                }
                match o {
                    Ok(next) => {
                        cur = next;
                    },
                    Err(e) => {
                        return (true, Err(e));
                    },
                }
                k += 1;
            }
            (true, Ok(cur))
        },
        DecoderKind::Bpe => {
            if toks.len() == 0 {
                return (false, Ok(toks));
            }
            let o = decode_chain_of(d, toks);
            (true, o)
        },
        DecoderKind::Strip { content, start, stop } => {
            if !strip_tokens_ok(&toks, content, start, stop) {
                return (false, Ok(toks));
            }
            let o = decode_chain_of(d, toks);
            (true, o)
        },
        _ => {
            let o = decode_chain_of(d, toks);
            (true, o)
        },
    }
}

/// Whether decoding these ids with this tokenizer runs to completion (see
/// `decode_safe`).
pub fn decode_is_safe(tok: &Tokenizer, ids: &[u32]) -> (b: bool)
    ensures
        b == decode_safe(*tok, ids@),
{
    match decoder_of(tok) {
        None => true,
        Some(d) => {
            let toks = decode_tokens_of(tok, ids);
            let (ok, _) = run_chain(&d, toks, DECODER_DEPTH);
            ok
        },
    }
}

/// The variant of the tokenizer's model, with whether a BPE model has a
/// dropout set (it then draws merges at random).
pub enum ModelKind {
    Bpe { dropout: bool },
    WordPiece,
    WordLevel,
    Unigram,
}

/// The variant of a tokenizer's model (see `ModelKind`).
pub uninterp spec fn model_kind(tok: Tokenizer) -> ModelKind;

/// Calls `Tokenizer::get_model` and tells the `ModelWrapper` variants
/// apart, with whether a BPE model's `dropout` is set; the result is named
/// `model_kind`.
#[verifier::external_body]
fn model_kind_of(tok: &Tokenizer) -> (r: ModelKind)
    ensures
        r == model_kind(*tok),
{
    match tok.get_model() {
        ModelWrapper::BPE(b) => ModelKind::Bpe { dropout: b.dropout.is_some() },
        ModelWrapper::WordPiece(_) => ModelKind::WordPiece,
        ModelWrapper::WordLevel(_) => ModelKind::WordLevel,
        ModelWrapper::Unigram(_) => ModelKind::Unigram,
    }
}

/// Encoding draws nothing at random: the model is not a BPE model with a
/// dropout set.
pub open spec fn encoding_fixed(tok: Tokenizer) -> bool {
    !(model_kind(tok) matches ModelKind::Bpe { dropout: true })
}

/// Whether encoding with this tokenizer draws nothing at random (see
/// `encoding_fixed`).
pub fn encoding_is_fixed(tok: &Tokenizer) -> (b: bool)
    ensures
        b == encoding_fixed(*tok),
{
    match model_kind_of(tok) {
        ModelKind::Bpe { dropout } => !dropout,
        _ => true,
    }
}

/// What `Tokenizer::encode(text, true)` gives, as token ids or the error's
/// message, where encoding draws nothing at random (see `encoding_fixed`):
/// a function of the tokenizer and the text.
pub uninterp spec fn encoded(tok: Tokenizer, text: Seq<char>) -> Result<Seq<u32>, Seq<char>>;

/// Calls `Tokenizer::encode(text, true)` and hands out the token ids; an
/// error is handed out as its message. Where the model draws nothing at
/// random the result is named `encoded`; a BPE model with dropout draws
/// merges at random, and nothing is stated of its ids. The call panics
/// where truncation leaves too little room (see `encode_safe`).
#[verifier::external_body]
fn tokenizer_encode(tok: &Tokenizer, text: &str) -> (r: Result<Vec<u32>, String>)
    requires
        encode_safe(*tok),
    ensures
        encoding_fixed(*tok) ==> ids_res_v(r) == encoded(*tok, text@),
{
    match tok.encode(text, true) {
        Ok(e) => Ok(e.get_ids().to_vec()),
        Err(e) => Err(e.to_string()),
    }
}

/// What `Tokenizer::decode(ids, true)` returns for a tokenizer: the text,
/// or the error's message. It depends on the tokenizer's vocabulary, added
/// tokens and decoder, and on nothing else.
pub uninterp spec fn decoded(tok: Tokenizer, ids: Seq<u32>) -> Result<Seq<char>, Seq<char>>;

/// Calls `Tokenizer::decode(ids, true)` (special tokens skipped); an error
/// is handed out as its message. The result is named `decoded`. Some
/// decoder steps panic on some tokens; `decode_safe` leaves them out.
#[verifier::external_body]
fn tokenizer_decode(tok: &Tokenizer, ids: &[u32]) -> (r: Result<String, String>)
    requires
        decode_safe(*tok, ids@),
    ensures
        res_v(r) == decoded(*tok, ids@),
{
    match tok.decode(ids, true) {
        Ok(s) => Ok(s),
        Err(e) => Err(e.to_string()),
    }
}

pub open spec fn source_ids_spec(ids: Seq<u32>) -> Seq<i64> {
    let n = if ids.len() <= MAX_ENC_TOKENS {
        ids.len() as int
    } else {
        MAX_ENC_TOKENS as int
    };
    ids.take(n).map_values(|x: u32| x as i64)
}

/// The encoder never gets more than `MAX_ENC_TOKENS` tokens: it gets the
/// first ones, in order, widened.
pub proof fn law_source_fits_encoder(ids: Seq<u32>)
    ensures
        source_ids_spec(ids).len() <= MAX_ENC_TOKENS,
        source_ids_spec(ids).len() == ids.len() || source_ids_spec(ids).len() == MAX_ENC_TOKENS,
        forall|i: int|
            0 <= i < source_ids_spec(ids).len() ==> #[trigger] source_ids_spec(ids)[i] == ids[i] as i64,
{
}

/// Source token ids as the encoder takes them: widened, cut to
/// `MAX_ENC_TOKENS`.
pub fn source_ids(ids: &Vec<u32>) -> (r: Vec<i64>)
    ensures
        r@ == source_ids_spec(ids@),
{
    let n = if ids.len() <= MAX_ENC_TOKENS {
        ids.len()
    } else {
        MAX_ENC_TOKENS
    };
    let mut r: Vec<i64> = Vec::new();
    let mut i: usize = 0;
    while i < n
        invariant
            i <= n <= ids.len(),
            r@ == ids@.take(i as int).map_values(|x: u32| x as i64),
        decreases n - i,
    {
        r.push(ids[i] as i64);
        i += 1;
        assert(r@ =~= ids@.take(i as int).map_values(|x: u32| x as i64));
    }
    r
}

/// What the encoder is fed for an encoding result: its ids cut to
/// `MAX_ENC_TOKENS` (`None` when there are none), or the error message
/// behind "encode(tr): ".
pub open spec fn source_spec(r: Result<Seq<u32>, Seq<char>>) -> Result<Option<Seq<i64>>, Seq<char>> {
    match r {
        Err(e) => Err("encode(tr): "@ + e),
        Ok(ids) => if ids.len() == 0 {
            Ok(None)
        } else {
            Ok(Some(source_ids_spec(ids)))
        },
    }
}

pub open spec fn ids_res_v(r: Result<Vec<u32>, String>) -> Result<Seq<u32>, Seq<char>> {
    match r {
        Ok(v) => Ok(v@),
        Err(e) => Err(e@),
    }
}

pub open spec fn source_out_v(o: Result<Option<Vec<i64>>, String>) -> Result<Option<Seq<i64>>, Seq<char>> {
    match o {
        Ok(Some(v)) => Ok(Some(v@)),
        Ok(None) => Ok(None),
        Err(e) => Err(e@),
    }
}

/// Shapes an encoding result for the encoder (see `source_spec`).
pub fn source_from_encoding(r: Result<Vec<u32>, String>) -> (out: Result<Option<Vec<i64>>, String>)
    ensures
        source_out_v(out) == source_spec(ids_res_v(r)),
{
    match r {
        Err(e) => {
            let mut m = String::new();
            push_str(&mut m, "encode(tr): ");
            push_str(&mut m, e.as_str());
            assert(m@ =~= "encode(tr): "@ + e@);
            Err(m)
        },
        Ok(ids) => if ids.len() == 0 {
            Ok(None)
        } else {
            Ok(Some(source_ids(&ids)))
        },
    }
}

/// The text that goes to the tokenizer for a given text: the text trimmed,
/// none when that is empty.
pub open spec fn source_text_spec(text: Seq<char>) -> Option<Seq<char>> {
    if trim(text).len() == 0 {
        None
    } else {
        Some(trim(text))
    }
}

pub open spec fn opt_v(o: Option<String>) -> Option<Seq<char>> {
    match o {
        Some(s) => Some(s@),
        None => None,
    }
}

/// The text that goes to the tokenizer (see `source_text_spec`).
pub fn source_text(text: &str) -> (r: Option<String>)
    ensures
        opt_v(r) == source_text_spec(text@),
{
    let t = trim_str(text);
    if t.as_str().is_empty() {
        None
    } else {
        Some(t)
    }
}

/// What the encoder is fed for a text, where encoding draws nothing at
/// random: nothing for a blank text, else the encoding of the trimmed
/// text, shaped (see `source_spec`).
pub open spec fn encode_source_spec(tok: Tokenizer, text: Seq<char>) -> Result<
    Option<Seq<i64>>,
    Seq<char>,
> {
    match source_text_spec(text) {
        None => Ok(None),
        Some(t) => source_spec(encoded(tok, t)),
    }
}

/// First half of translating a text: the trimmed text is encoded (nothing
/// to translate when it is empty) and the result shaped for the encoder.
/// Whatever the tokenizer gave, the result is a shaped encoding; where it
/// draws nothing at random, it is that of the trimmed text.
pub fn encode_source(tok: &Tokenizer, text: &str) -> (out: Result<Option<Vec<i64>>, String>)
    requires
        encode_safe(*tok),
    ensures
        trim(text@).len() == 0 ==> out matches Ok(None),
        trim(text@).len() > 0 ==> exists|r: Result<Seq<u32>, Seq<char>>|
            source_out_v(out) == source_spec(r),
        encoding_fixed(*tok) ==> source_out_v(out) == encode_source_spec(*tok, text@),
{
    match source_text(text) {
        None => Ok(None),
        Some(t) => {
            let r = tokenizer_encode(tok, t.as_str());
            let ghost rv = ids_res_v(r);
            let out = source_from_encoding(r);
            assert(source_out_v(out) == source_spec(rv));
            out
        },
    }
}

#[verifier::truncate]
pub open spec fn target_ids_spec(ids: Seq<i64>) -> Seq<u32> {
    ids.map_values(|x: i64| #[verifier::truncate] (x as u32))
}

/// Target token ids as the tokenizer takes them (`as u32`).
pub fn target_ids(ids: &Vec<i64>) -> (r: Vec<u32>)
    ensures
        r@ == target_ids_spec(ids@),
{
    let mut r: Vec<u32> = Vec::new();
    let mut i: usize = 0;
    while i < ids.len()
        invariant
            i <= ids.len(),
            r@ == target_ids_spec(ids@.take(i as int)),
        decreases ids.len() - i,
    {
        r.push(#[verifier::truncate] (ids[i] as u32));
        i += 1;
        assert(r@ =~= target_ids_spec(ids@.take(i as int)));
    }
    assert(ids@.take(ids.len() as int) =~= ids@);
    r
}

/// The translation for a decoding result: the decoded text trimmed, or the
/// error message behind "decode(ar): ".
pub open spec fn target_spec(r: Result<Seq<char>, Seq<char>>) -> Result<Seq<char>, Seq<char>> {
    match r {
        Err(e) => Err("decode(ar): "@ + e),
        Ok(s) => Ok(trim(s)),
    }
}

/// Shapes a decoding result (see `target_spec`).
pub fn target_from_decoding(r: Result<String, String>) -> (out: Result<String, String>)
    ensures
        res_v(out) == target_spec(res_v(r)),
{
    match r {
        Err(e) => {
            let mut m = String::new();
            push_str(&mut m, "decode(ar): ");
            push_str(&mut m, e.as_str());
            assert(m@ =~= "decode(ar): "@ + e@);
            Err(m)
        },
        Ok(s) => Ok(trim_str(s.as_str())),
    }
}

/// Second half of translating a text: the target ids (the beam search's
/// result) decoded by the tokenizer and shaped (see `target_spec`).
pub fn decode_target(tok: &Tokenizer, ids: &Vec<i64>) -> (out: Result<String, String>)
    requires
        ids@.len() > 0 ==> decode_safe(*tok, target_ids_spec(ids@)),
    ensures
        ids@.len() == 0 ==> (out matches Err(m) && m@ == "translation produced no tokens"@),
        ids@.len() > 0 ==> res_v(out) == target_spec(decoded(*tok, target_ids_spec(ids@))),
        out matches Ok(t) ==> t@ == trim(t@),
{
    if ids.len() == 0 {
        let mut m = String::new();
        push_str(&mut m, "translation produced no tokens");
        assert(m@ =~= "translation produced no tokens"@);
        return Err(m);
    }
    let u = target_ids(ids);
    let us = u.as_slice();
    assert(us@ == target_ids_spec(ids@));
    let d = tokenizer_decode(tok, us);
    let ghost dv = res_v(d);
    let r = target_from_decoding(d);
    assert(res_v(r) == target_spec(dv));
    proof {
        match dv {
            Ok(s) => {
                crate::text::lemma_trim_idempotent(s);
            },
            Err(_) => {},
        }
    }
    r
}

/// What translating a text gives, the beam search being `generate` (from
/// the encoder's input to target ids, or an error), where encoding draws
/// nothing at random: nothing for a blank text, else the generated ids
/// decoded and trimmed (see `encode_source` and `decode_target`).
pub open spec fn translation_spec(
    tok: Tokenizer,
    text: Seq<char>,
    generate: spec_fn(Seq<i64>) -> Result<Seq<i64>, Seq<char>>,
) -> Result<Seq<char>, Seq<char>> {
    match encode_source_spec(tok, text) {
        Err(e) => Err(e),
        Ok(None) => Ok(Seq::empty()),
        Ok(Some(src)) => match generate(src) {
            Err(e) => Err(e),
            Ok(ids) => if ids.len() == 0 {
                Err("translation produced no tokens"@)
            } else {
                target_spec(decoded(tok, target_ids_spec(ids)))
            },
        },
    }
}

/// A text and the same text trimmed translate alike, whatever the beam
/// search; a blank text translates to nothing, without the beam search;
/// a translation has no surrounding white space; the encoder gets between
/// one and `MAX_ENC_TOKENS` tokens.
pub proof fn law_translate_trimmed_alike(
    tok: Tokenizer,
    text: Seq<char>,
    generate: spec_fn(Seq<i64>) -> Result<Seq<i64>, Seq<char>>,
)
    ensures
        translation_spec(tok, trim(text), generate) == translation_spec(tok, text, generate),
        trim(text).len() == 0 ==> translation_spec(tok, text, generate) == Ok::<
            Seq<char>,
            Seq<char>,
        >(Seq::empty()),
        translation_spec(tok, text, generate) matches Ok(s) ==> s == trim(s),
        encode_source_spec(tok, text) matches Ok(Some(src)) ==> 0 < src.len() <= MAX_ENC_TOKENS,
{
    crate::text::lemma_trim_idempotent(text);
    let e = Seq::<char>::empty();
    assert(trim_start(e) == e);
    assert(trim_end(e) == e);
    if let Ok(Some(src)) = encode_source_spec(tok, text) {
        law_source_fits_encoder(encoded(tok, trim(text))->Ok_0);
    }
    if let Ok(Some(src)) = encode_source_spec(tok, text) {
        if let Ok(ids) = generate(src) {
            if ids.len() > 0 {
                if let Ok(d) = decoded(tok, target_ids_spec(ids)) {
                    crate::text::lemma_trim_idempotent(d);
                }
            }
        }
    }
}

/// `encode_source` where the tokenizer's settings let encoding run to
/// completion (see `encode_safe`), `None` where they do not.
pub fn try_encode_source(tok: &Tokenizer, text: &str) -> (out: Option<
    Result<Option<Vec<i64>>, String>,
>)
    ensures
        out is None <==> !encode_safe(*tok),
        out matches Some(o) ==> {
            &&& trim(text@).len() == 0 ==> (o matches Ok(None))
            &&& trim(text@).len() > 0 ==> exists|r: Result<Seq<u32>, Seq<char>>|
                source_out_v(o) == source_spec(r)
            &&& encoding_fixed(*tok) ==> source_out_v(o) == encode_source_spec(*tok, text@)
        },
{
    if encode_is_safe(tok) {
        Some(encode_source(tok, text))
    } else {
        None
    }
}

/// `decode_target` where the tokenizer's decoder runs to completion on
/// these ids (see `decode_safe`), `None` where it does not.
pub fn try_decode_target(tok: &Tokenizer, ids: &Vec<i64>) -> (out: Option<Result<String, String>>)
    ensures
        out is None <==> (ids@.len() > 0 && !decode_safe(*tok, target_ids_spec(ids@))),
        out matches Some(o) ==> {
            &&& ids@.len() == 0 ==> (o matches Err(m) && m@ == "translation produced no tokens"@)
            &&& ids@.len() > 0 ==> res_v(o) == target_spec(decoded(*tok, target_ids_spec(ids@)))
            &&& (o matches Ok(t) ==> t@ == trim(t@))
        },
{
    if ids.len() == 0 {
        return Some(decode_target(tok, ids));
    }
    let u = target_ids(ids);
    if decode_is_safe(tok, u.as_slice()) {
        Some(decode_target(tok, ids))
    } else {
        None
    }
}

} // verus!
