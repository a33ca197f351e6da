//! The engine's TR->AR pipeline as a state machine: audio extraction,
//! transcription, translation and the glossary. The caller performs each
//! request (ffmpeg, whisper, the translation model) and reports back; the
//! machine decides what is logged, what fails and what the result is.

use vstd::prelude::*;

use crate::glossary;
use crate::model::{with_context, EngineEvent, RawSeg, Seg};
use crate::text::{
    chars_of, dec, is_whitespace, is_ws, join, lemma_join_empty, lemma_join_push,
    lemma_join_update_last, lemma_words_last, lemma_words_nonempty, push_dec, push_str, words,
};

verus! {

// ---------------------------------------------------------------------------
// segment text clean-up
// ---------------------------------------------------------------------------

/// Stray quotation marks whisper wraps segments in.
pub open spec fn is_quote(c: char) -> bool {
    c == '"' || c == '\u{201C}' || c == '\u{201D}'
}

pub open spec fn strip_quotes(s: Seq<char>) -> Seq<char> {
    s.filter(|c: char| !is_quote(c))
}

/// The text of a recognised segment as it is translated and shown: quotes
/// removed, words joined by single spaces.
pub open spec fn clean_spec(s: Seq<char>) -> Seq<char> {
    join(words(strip_quotes(s)), seq![' '])
}

fn strip_quotes_exec(v: &Vec<char>) -> (r: Vec<char>)
    ensures
        r@ == strip_quotes(v@),
{
    let mut r: Vec<char> = Vec::new();
    let mut i: usize = 0;
    while i < v.len()
        invariant
            i <= v.len(),
            r@ == strip_quotes(v@.take(i as int)),
        decreases v.len() - i,
    {
        let c = v[i];
        proof {
            assert(v@.take(i + 1).drop_last() =~= v@.take(i as int));
            assert(v@.take(i + 1).last() == c);
            reveal(Seq::filter);
        }
        if !(c == '"' || c == '\u{201C}' || c == '\u{201D}') {
            r.push(c);
        }
        i += 1;
    }
    assert(v@.take(v.len() as int) =~= v@);
    r
}

/// Removes quotation marks and collapses whitespace runs to single spaces
/// (no leading or trailing whitespace).
pub fn clean_text(s: &str) -> (r: String)
    ensures
        r@ == clean_spec(s@),
{
    let v = strip_quotes_exec(&chars_of(s));
    let ghost t = v@;
    let mut out = String::new();
    let mut prev_ws = true;
    let mut i: usize = 0;
    while i < v.len()
        invariant
            i <= v.len(),
            t == v@,
            prev_ws == (i == 0 || is_ws(t[i - 1])),
            out@ == join(words(t.take(i as int)), seq![' ']),
        decreases v.len() - i,
    {
        let c = v[i];
        let ghost pre = t.take(i as int);
        let ghost next = t.take(i + 1);
        proof {
            assert(next.drop_last() =~= pre);
            assert(next.last() == c);
            lemma_words_nonempty(pre);
            lemma_join_empty(words(pre), seq![' ']);
        }
        if is_whitespace(c) {
            prev_ws = true;
        } else {
            if prev_ws {
                proof {
                    lemma_join_push(words(pre), seq![c], seq![' ']);
                    if i >= 1 {
                        assert(next[next.len() - 2] == t[i - 1]);
                    }
                }
                if out.as_str().is_empty() {
                    out.push(c);
                    assert(out@ =~= seq![c]);
                } else {
                    out.push(' ');
                    out.push(c);
                }
            } else {
                proof {
                    assert(next[next.len() - 2] == t[i - 1]);
                    assert(pre.last() == t[i - 1]);
                    lemma_words_last(pre);
                    lemma_join_update_last(words(pre), c, seq![' ']);
                }
                out.push(c);
            }
            prev_ws = false;
        }
        i += 1;
    }
    assert(t.take(v.len() as int) =~= t);
    out
}

// ---------------------------------------------------------------------------
// the pipeline
// ---------------------------------------------------------------------------

/// Something the engine reports on the way. `Stage`, `Log` and `Mt` are
/// protocol events as they stand; the reports carry timings, file sizes and
/// paths, which the caller formats.
pub enum Emit {
    Event(EngineEvent),
    /// "Input: <path> (<size>)"
    InputReport,
    /// "Audio: <seconds>s, <samples> samples (mono 16 kHz)"
    AudioReport { samples: usize },
    /// "Loading whisper model <path> (<size>)..."
    ModelReport,
    /// "ASR done in <seconds>s, <n> speech segments (...) | compute backend: ..."
    AsrReport,
    /// "Pipeline finished in <seconds>s"
    FinishReport,
}

/// What the machine asks the caller to do next.
pub enum Request {
    ExtractAudio,
    Transcribe,
    LoadTranslator,
    /// Translate this (cleaned) Turkish text.
    Translate(String),
    /// The pipeline succeeded with these subtitles.
    Finish(Vec<Seg>),
    /// The pipeline failed with this message.
    Fail(String),
}

pub struct Step {
    pub emits: Vec<Emit>,
    pub request: Request,
}

#[derive(PartialEq, Eq, Structural, Clone, Copy)]
pub enum Phase {
    Init,
    Extracting,
    Transcribing,
    LoadingTranslator,
    Translating,
    Finished,
}

/// Spec view of an emit.
pub enum EmitV {
    Stage(Seq<char>),
    Log(Seq<char>),
    Mt(usize, usize),
    InputReport,
    AudioReport(usize),
    ModelReport,
    AsrReport,
    FinishReport,
    Other,
}

pub open spec fn emit_v(e: Emit) -> EmitV {
    match e {
        Emit::Event(EngineEvent::Stage { s }) => EmitV::Stage(s@),
        Emit::Event(EngineEvent::Log { s }) => EmitV::Log(s@),
        Emit::Event(EngineEvent::Mt { a, b }) => EmitV::Mt(a, b),
        Emit::Event(_) => EmitV::Other,
        Emit::InputReport => EmitV::InputReport,
        Emit::AudioReport { samples } => EmitV::AudioReport(samples),
        Emit::ModelReport => EmitV::ModelReport,
        Emit::AsrReport => EmitV::AsrReport,
        Emit::FinishReport => EmitV::FinishReport,
    }
}

pub open spec fn emits_v(es: Seq<Emit>) -> Seq<EmitV> {
    es.map_values(|e: Emit| emit_v(e))
}

/// A subtitle as `(t0, t1, turkish, arabic)`.
pub type SegV = (i64, i64, Seq<char>, Seq<char>);

pub open spec fn seg_v(s: Seg) -> SegV {
    (s.t0, s.t1, s.tr@, s.ar@)
}

pub open spec fn segs_v(v: Seq<Seg>) -> Seq<SegV> {
    v.map_values(|s: Seg| seg_v(s))
}

/// Spec view of a request.
pub enum RequestV {
    ExtractAudio,
    Transcribe,
    LoadTranslator,
    Translate(Seq<char>),
    Finish(Seq<SegV>),
    Fail(Seq<char>),
}

pub open spec fn request_v(r: Request) -> RequestV {
    match r {
        Request::ExtractAudio => RequestV::ExtractAudio,
        Request::Transcribe => RequestV::Transcribe,
        Request::LoadTranslator => RequestV::LoadTranslator,
        Request::Translate(s) => RequestV::Translate(s@),
        Request::Finish(v) => RequestV::Finish(segs_v(v@)),
        Request::Fail(m) => RequestV::Fail(m@),
    }
}

/// Fewer samples than this (0.1 s at 16 kHz) count as no audio.
pub const MIN_SAMPLES: usize = 1600;

pub open spec fn audio_failure() -> Seq<char> {
    "Audio extraction failed (is the file a valid video/audio?)"@
}

pub open spec fn no_audio() -> Seq<char> {
    "No usable audio track found in this file"@
}

pub open spec fn no_speech() -> Seq<char> {
    "No speech detected in this file"@
}

pub open spec fn mt_failure() -> Seq<char> {
    "Failed to load translation model (models/mt/tr-ar)"@
}

pub open spec fn glossary_log(n: nat) -> Seq<char> {
    "Applying glossary: "@ + dec(n) + " pairs"@
}

/// The subtitles before the glossary: times of the recognised segment, its
/// cleaned text and the translation of that text.
pub open spec fn translated_seg(r: RawSeg, ar: Seq<char>) -> SegV {
    (r.t0, r.t1, clean_spec(r.text@), ar)
}

/// The glossary applied to every Arabic line.
pub open spec fn with_glossary(segs: Seq<SegV>, pairs: Seq<(Seq<char>, Seq<char>)>) -> Seq<SegV>
    decreases segs.len(),
{
    if segs.len() == 0 {
        seq![]
    } else {
        with_glossary(segs.drop_last(), pairs).push(
            (segs.last().0, segs.last().1, segs.last().2, glossary::apply_spec(segs.last().3, pairs)),
        )
    }
}

pub struct Pipeline {
    pub phase: Phase,
    /// The recognised segments (set once transcription succeeded).
    pub raw: Vec<RawSeg>,
    /// Translated subtitles so far, glossary not yet applied.
    pub segs: Vec<Seg>,
    /// The job's glossary text.
    pub glossary: String,
}

impl Pipeline {
    /// Invariant of a run: each translated subtitle belongs to the
    /// recognised segment at the same index.
    pub open spec fn wf(&self) -> bool {
        &&& self.segs@.len() <= self.raw@.len()
        &&& (self.phase == Phase::Translating ==> self.segs@.len() < self.raw@.len())
        &&& forall|k: int|
            0 <= k < self.segs@.len() ==> seg_v(#[trigger] self.segs@[k]) == translated_seg(
                self.raw@[k],
                self.segs@[k].ar@,
            )
    }

    pub fn new(glossary: String) -> (p: Pipeline)
        ensures
            p.phase == Phase::Init,
            p.raw@.len() == 0,
            p.segs@.len() == 0,
            p.glossary@ == glossary@,
            p.wf(),
    {
        Pipeline { phase: Phase::Init, raw: Vec::new(), segs: Vec::new(), glossary }
    }

    fn stage(s: &str) -> (e: Emit)
        ensures
            emit_v(e) == EmitV::Stage(s@),
    {
        let mut t = String::new();
        push_str(&mut t, s);
        assert(t@ =~= s@);
        Emit::Event(EngineEvent::Stage { s: t })
    }

    fn message(s: &str) -> (m: String)
        ensures
            m@ == s@,
    {
        let mut t = String::new();
        push_str(&mut t, s);
        assert(t@ =~= s@);
        t
    }

    /// Start: report the input, enter the extraction stage.
    pub fn start(&mut self) -> (st: Step)
        requires
            old(self).phase == Phase::Init,
            old(self).wf(),
        ensures
            final(self).phase == Phase::Extracting,
            final(self).raw == old(self).raw,
            final(self).segs == old(self).segs,
            final(self).glossary == old(self).glossary,
            final(self).wf(),
            emits_v(st.emits@) == seq![EmitV::InputReport, EmitV::Stage("extracting"@)],
            request_v(st.request) == RequestV::ExtractAudio,
    {
        let mut emits: Vec<Emit> = Vec::new();
        emits.push(Emit::InputReport);
        emits.push(Self::stage("extracting"));
        self.phase = Phase::Extracting;
        assert(emits_v(emits@) =~= seq![EmitV::InputReport, EmitV::Stage("extracting"@)]);
        Step { emits, request: Request::ExtractAudio }
    }

    /// Audio extraction finished with this many samples, or failed.
    pub fn audio_extracted(&mut self, r: Result<usize, String>) -> (st: Step)
        requires
            old(self).phase == Phase::Extracting,
            old(self).wf(),
        ensures
            final(self).raw == old(self).raw,
            final(self).segs == old(self).segs,
            final(self).glossary == old(self).glossary,
            final(self).wf(),
            match r {
                Err(e) => {
                    &&& final(self).phase == Phase::Finished
                    &&& emits_v(st.emits@) == Seq::<EmitV>::empty()
                    &&& request_v(st.request) == RequestV::Fail(with_context(audio_failure(), e@))
                },
                Ok(n) => if n < MIN_SAMPLES {
                    &&& final(self).phase == Phase::Finished
                    &&& emits_v(st.emits@) == seq![EmitV::AudioReport(n)]
                    &&& request_v(st.request) == RequestV::Fail(no_audio())
                } else {
                    &&& final(self).phase == Phase::Transcribing
                    &&& emits_v(st.emits@) == seq![
                        EmitV::AudioReport(n),
                        EmitV::Stage("loading-model"@),
                        EmitV::ModelReport,
                        EmitV::Stage("transcribe"@),
                    ]
                    &&& request_v(st.request) == RequestV::Transcribe
                },
            },
    {
        let mut emits: Vec<Emit> = Vec::new();
        match r {
            Err(e) => {
                self.phase = Phase::Finished;
                let mut m = Self::message(
                    "Audio extraction failed (is the file a valid video/audio?)",
                );
                push_str(&mut m, ": ");
                push_str(&mut m, e.as_str());
                assert(emits_v(emits@) =~= Seq::<EmitV>::empty());
                Step { emits, request: Request::Fail(m) }
            },
            Ok(n) => {
                emits.push(Emit::AudioReport { samples: n });
                if n < MIN_SAMPLES {
                    self.phase = Phase::Finished;
                    assert(emits_v(emits@) =~= seq![EmitV::AudioReport(n)]);
                    Step {
                        emits,
                        request: Request::Fail(
                            Self::message("No usable audio track found in this file"),
                        ),
                    }
                } else {
                    emits.push(Self::stage("loading-model"));
                    emits.push(Emit::ModelReport);
                    emits.push(Self::stage("transcribe"));
                    self.phase = Phase::Transcribing;
                    assert(emits_v(emits@) =~= seq![
                        EmitV::AudioReport(n),
                        EmitV::Stage("loading-model"@),
                        EmitV::ModelReport,
                        EmitV::Stage("transcribe"@),
                    ]);
                    Step { emits, request: Request::Transcribe }
                }
            },
        }
    }

    /// Transcription finished with these segments, or failed (the message
    /// is passed on as it is).
    pub fn transcribed(&mut self, r: Result<Vec<RawSeg>, String>) -> (st: Step)
        requires
            old(self).phase == Phase::Transcribing,
            old(self).segs@.len() == 0,
            old(self).wf(),
        ensures
            final(self).segs == old(self).segs,
            final(self).glossary == old(self).glossary,
            final(self).wf(),
            match r {
                Err(e) => {
                    &&& final(self).phase == Phase::Finished
                    &&& final(self).raw == old(self).raw
                    &&& emits_v(st.emits@) == Seq::<EmitV>::empty()
                    &&& request_v(st.request) == RequestV::Fail(e@)
                },
                Ok(raw) => {
                    &&& final(self).raw@ == raw@
                    &&& if raw@.len() == 0 {
                        &&& final(self).phase == Phase::Finished
                        &&& emits_v(st.emits@) == seq![EmitV::AsrReport]
                        &&& request_v(st.request) == RequestV::Fail(no_speech())
                    } else {
                        &&& final(self).phase == Phase::LoadingTranslator
                        &&& emits_v(st.emits@) == seq![
                            EmitV::AsrReport,
                            EmitV::Stage("loading-mt"@),
                        ]
                        &&& request_v(st.request) == RequestV::LoadTranslator
                    }
                },
            },
    {
        let mut emits: Vec<Emit> = Vec::new();
        match r {
            Err(e) => {
                self.phase = Phase::Finished;
                assert(emits_v(emits@) =~= Seq::<EmitV>::empty());
                Step { emits, request: Request::Fail(e) }
            },
            Ok(raw) => {
                emits.push(Emit::AsrReport);
                self.raw = raw;
                if self.raw.len() == 0 {
                    self.phase = Phase::Finished;
                    assert(emits_v(emits@) =~= seq![EmitV::AsrReport]);
                    Step {
                        emits,
                        request: Request::Fail(Self::message("No speech detected in this file")),
                    }
                } else {
                    emits.push(Self::stage("loading-mt"));
                    self.phase = Phase::LoadingTranslator;
                    assert(emits_v(emits@) =~= seq![
                        EmitV::AsrReport,
                        EmitV::Stage("loading-mt"@),
                    ]);
                    Step { emits, request: Request::LoadTranslator }
                }
            },
        }
    }

    /// The translation model loaded, or failed to.
    pub fn translator_loaded(&mut self, r: Result<(), String>) -> (st: Step)
        requires
            old(self).phase == Phase::LoadingTranslator,
            old(self).raw@.len() > 0,
            old(self).segs@.len() == 0,
            old(self).wf(),
        ensures
            final(self).raw == old(self).raw,
            final(self).segs == old(self).segs,
            final(self).glossary == old(self).glossary,
            final(self).wf(),
            match r {
                Err(e) => {
                    &&& final(self).phase == Phase::Finished
                    &&& emits_v(st.emits@) == Seq::<EmitV>::empty()
                    &&& request_v(st.request) == RequestV::Fail(with_context(mt_failure(), e@))
                },
                Ok(_) => {
                    &&& final(self).phase == Phase::Translating
                    &&& emits_v(st.emits@) == seq![EmitV::Stage("translate"@)]
                    &&& request_v(st.request) == RequestV::Translate(
                        clean_spec(old(self).raw@[0].text@),
                    )
                },
            },
    {
        let mut emits: Vec<Emit> = Vec::new();
        match r {
            Err(e) => {
                self.phase = Phase::Finished;
                let mut m = Self::message("Failed to load translation model (models/mt/tr-ar)");
                push_str(&mut m, ": ");
                push_str(&mut m, e.as_str());
                assert(emits_v(emits@) =~= Seq::<EmitV>::empty());
                Step { emits, request: Request::Fail(m) }
            },
            Ok(_) => {
                emits.push(Self::stage("translate"));
                self.phase = Phase::Translating;
                let t = clean_text(self.raw[0].text.as_str());
                assert(emits_v(emits@) =~= seq![EmitV::Stage("translate"@)]);
                Step { emits, request: Request::Translate(t) }
            },
        }
    }

    /// The translation of the current segment came back (`Err` counts as an
    /// empty translation).
    pub fn translated(&mut self, r: Result<String, String>) -> (st: Step)
        requires
            old(self).phase == Phase::Translating,
            old(self).wf(),
        ensures
            final(self).raw == old(self).raw,
            final(self).glossary == old(self).glossary,
            final(self).wf(),
            ({
                let i = old(self).segs@.len();
                let n = old(self).raw@.len();
                let ar = match r {
                    Ok(a) => a@,
                    Err(_) => Seq::<char>::empty(),
                };
                &&& final(self).segs@.len() == i + 1
                &&& final(self).segs@.take(i as int) == old(self).segs@
                &&& seg_v(final(self).segs@[i as int]) == translated_seg(old(self).raw@[i as int], ar)
                &&& emits_v(st.emits@).len() >= 1
                &&& emits_v(st.emits@)[0] == EmitV::Mt((i + 1) as usize, n as usize)
                &&& if i + 1 < n {
                    &&& final(self).phase == Phase::Translating
                    &&& emits_v(st.emits@).len() == 1
                    &&& request_v(st.request) == RequestV::Translate(
                        clean_spec(old(self).raw@[i + 1 as int].text@),
                    )
                } else {
                    let pairs = glossary::parse_spec(old(self).glossary@);
                    &&& final(self).phase == Phase::Finished
                    &&& emits_v(st.emits@) == if pairs.len() > 0 {
                        seq![
                            EmitV::Mt((i + 1) as usize, n as usize),
                            EmitV::Log(glossary_log(pairs.len())),
                            EmitV::FinishReport,
                        ]
                    } else {
                        seq![EmitV::Mt((i + 1) as usize, n as usize), EmitV::FinishReport]
                    }
                    &&& request_v(st.request) == RequestV::Finish(
                        with_glossary(segs_v(final(self).segs@), pairs),
                    )
                }
            }),
    {
        let i = self.segs.len();
        let n = self.raw.len();
        let ar = match r {
            Ok(a) => a,
            Err(_) => String::new(),
        };
        let tr = clean_text(self.raw[i].text.as_str());
        let seg = Seg { t0: self.raw[i].t0, t1: self.raw[i].t1, tr, ar };
        self.segs.push(seg);
        proof {
            assert(self.segs@.take(i as int) =~= old(self).segs@);
            assert forall|k: int| 0 <= k < self.segs@.len() implies seg_v(#[trigger] self.segs@[k])
                == translated_seg(self.raw@[k], self.segs@[k].ar@) by {
                if k < i {
                    assert(self.segs@[k] == old(self).segs@[k]);
                }
            }
        }
        let mut emits: Vec<Emit> = Vec::new();
        emits.push(Emit::Event(EngineEvent::Mt { a: i + 1, b: n }));
        if i + 1 < n {
            let t = clean_text(self.raw[i + 1].text.as_str());
            assert(emits_v(emits@) =~= seq![EmitV::Mt((i + 1) as usize, n as usize)]);
            return Step { emits, request: Request::Translate(t) };
        }
        self.phase = Phase::Finished;
        let pairs = glossary::parse(self.glossary.as_str());
        if pairs.len() > 0 {
            let mut m = Self::message("Applying glossary: ");
            push_dec(&mut m, pairs.len() as u64);
            push_str(&mut m, " pairs");
            emits.push(Emit::Event(EngineEvent::Log { s: m }));
        }
        emits.push(Emit::FinishReport);
        proof {
            if pairs.len() > 0 {
                assert(emits_v(emits@) =~= seq![
                    EmitV::Mt((i + 1) as usize, n as usize),
                    EmitV::Log(glossary_log(pairs@.len())),
                    EmitV::FinishReport,
                ]);
            } else {
                assert(emits_v(emits@) =~= seq![
                    EmitV::Mt((i + 1) as usize, n as usize),
                    EmitV::FinishReport,
                ]);
            }
        }
        let ghost gp = crate::text::pair_views(pairs@);
        let mut out: Vec<Seg> = Vec::new();
        let mut k: usize = 0;
        #[verifier::loop_isolation(false)]
        while k < self.segs.len()
            invariant
                k <= self.segs@.len(),
                gp == crate::text::pair_views(pairs@),
                with_glossary(segs_v(self.segs@).take(k as int), gp) == segs_v(out@),
            decreases self.segs@.len() - k,
        {
            let mut a = self.segs[k].ar.clone();
            glossary::apply(&mut a, pairs.as_slice());
            proof {
                let ss = segs_v(self.segs@).take(k + 1);
                assert(ss.drop_last() =~= segs_v(self.segs@).take(k as int));
                assert(ss.last() == seg_v(self.segs@[k as int]));
            }
            let s = Seg { t0: self.segs[k].t0, t1: self.segs[k].t1, tr: self.segs[k].tr.clone(), ar: a };
            out.push(s);
            assert(segs_v(out@) =~= segs_v(out@.drop_last()).push(seg_v(s)));
            k += 1;
        }
        assert(segs_v(self.segs@).take(self.segs@.len() as int) =~= segs_v(self.segs@));
        Step { emits, request: Request::Finish(out) }
    }
}

/// The glossary only touches the Arabic side: the finished subtitles are the
/// translated ones, one for one and in order, with their times and Turkish
/// text, each Arabic line being the glossary applied to it.
pub proof fn law_glossary_keeps_lines(segs: Seq<SegV>, pairs: Seq<(Seq<char>, Seq<char>)>)
    ensures
        ({
            let out = with_glossary(segs, pairs);
            &&& out.len() == segs.len()
            &&& forall|i: int|
                0 <= i < segs.len() ==> {
                    let o = #[trigger] out[i];
                    &&& o.0 == segs[i].0
                    &&& o.1 == segs[i].1
                    &&& o.2 == segs[i].2
                    &&& glossary::apply_spec(segs[i].3, pairs) == o.3
                }
        }),
    decreases segs.len(),
{
    if segs.len() > 0 {
        law_glossary_keeps_lines(segs.drop_last(), pairs);
        let out = with_glossary(segs, pairs);
        let init = with_glossary(segs.drop_last(), pairs);
        assert forall|i: int| 0 <= i < segs.len() implies {
            let o = #[trigger] out[i];
            &&& o.0 == segs[i].0
            &&& o.1 == segs[i].1
            &&& o.2 == segs[i].2
            &&& glossary::apply_spec(segs[i].3, pairs) == o.3
        } by {
            if i < segs.len() - 1 {
                assert(out[i] == init[i]);
                assert(segs.drop_last()[i] == segs[i]);
            }
        }
    }
}

/// An empty glossary leaves every subtitle as it is.
pub proof fn law_empty_glossary_is_identity(segs: Seq<SegV>)
    ensures
        with_glossary(segs, Seq::empty()) == segs,
    decreases segs.len(),
{
    if segs.len() > 0 {
        law_empty_glossary_is_identity(segs.drop_last());
        assert(segs.drop_last().push(segs.last()) =~= segs);
    }
}

/// No quotation mark, and white space only as single spaces between words.
pub open spec fn tidy(r: Seq<char>) -> bool {
    &&& forall|i: int| 0 <= i < r.len() ==> !is_quote(#[trigger] r[i])
    &&& forall|i: int|
        0 <= i < r.len() && is_ws(#[trigger] r[i]) ==> r[i] == ' ' && 0 < i < r.len() - 1 && !is_ws(
            r[i - 1],
        ) && !is_ws(r[i + 1])
}

/// A word of cleaned text: no white space, no quotation mark.
pub open spec fn clean_word(w: Seq<char>) -> bool {
    w.len() >= 1 && forall|j: int| 0 <= j < w.len() ==> !is_ws(#[trigger] w[j]) && !is_quote(w[j])
}

proof fn lemma_words_clean(s: Seq<char>)
    requires
        forall|i: int| 0 <= i < s.len() ==> !is_quote(#[trigger] s[i]),
    ensures
        forall|k: int| 0 <= k < words(s).len() ==> clean_word(#[trigger] words(s)[k]),
    decreases s.len(),
{
    if s.len() > 0 {
        let d = s.drop_last();
        assert forall|i: int| 0 <= i < d.len() implies !is_quote(#[trigger] d[i]) by {
            assert(d[i] == s[i]);
        }
        lemma_words_clean(d);
        let w = words(d);
        let c = s.last();
        assert(!is_quote(s[s.len() - 1]));
        if is_ws(c) {
        } else if s.len() >= 2 && !is_ws(s[s.len() - 2]) {
            assert(d.last() == s[s.len() - 2]);
            crate::text::lemma_words_last(d);
            let u = w.update(w.len() - 1, w.last().push(c));
            assert(words(s) == u);
            assert forall|k: int| 0 <= k < u.len() implies clean_word(#[trigger] u[k]) by {
                if k == w.len() - 1 {
                    let x = w.last().push(c);
                    assert(clean_word(w[k]));
                    assert forall|j: int| 0 <= j < x.len() implies !is_ws(#[trigger] x[j]) && !is_quote(
                        x[j],
                    ) by {
                        if j < w.last().len() {
                            assert(x[j] == w[k][j]);
                        }
                    }
                } else {
                    assert(u[k] == w[k]);
                }
            }
        } else {
            let u = w.push(seq![c]);
            assert(words(s) == u);
            assert forall|k: int| 0 <= k < u.len() implies clean_word(#[trigger] u[k]) by {
                if k < w.len() {
                    assert(u[k] == w[k]);
                }
            }
        }
    }
}

proof fn lemma_join_tidy(ws: Seq<Seq<char>>)
    requires
        forall|k: int| 0 <= k < ws.len() ==> clean_word(#[trigger] ws[k]),
    ensures
        tidy(join(ws, seq![' '])),
        ws.len() > 0 ==> join(ws, seq![' ']).len() > 0,
    decreases ws.len(),
{
    if ws.len() == 1 {
        assert(clean_word(ws[0]));
    } else if ws.len() > 1 {
        let init = ws.drop_last();
        assert forall|k: int| 0 <= k < init.len() implies clean_word(#[trigger] init[k]) by {
            assert(init[k] == ws[k]);
        }
        lemma_join_tidy(init);
        let a = join(init, seq![' ']);
        let b = ws.last();
        assert(clean_word(ws[ws.len() - 1]));
        let r = a + seq![' '] + b;
        assert(join(ws, seq![' ']) == r);
        assert(!is_ws(a[a.len() - 1])) by {
            if is_ws(a[a.len() - 1]) {
            }
        }
        assert(!is_ws(b[0]));
        assert forall|i: int| 0 <= i < r.len() implies !is_quote(#[trigger] r[i]) by {
            if i < a.len() {
                assert(r[i] == a[i]);
            } else if i > a.len() {
                assert(r[i] == b[i - a.len() - 1]);
            }
        }
        assert forall|i: int| 0 <= i < r.len() && is_ws(#[trigger] r[i]) implies r[i] == ' ' && 0 < i
            < r.len() - 1 && !is_ws(r[i - 1]) && !is_ws(r[i + 1]) by {
            if i < a.len() {
                assert(r[i] == a[i]);
                assert(is_ws(a[i]));
                if i + 1 < a.len() {
                    assert(r[i + 1] == a[i + 1]);
                }
                if i > 0 {
                    assert(r[i - 1] == a[i - 1]);
                }
            } else if i > a.len() {
                assert(r[i] == b[i - a.len() - 1]);
            } else {
                assert(r[i - 1] == a[a.len() - 1]);
                assert(r[i + 1] == b[0]);
            }
        }
    }
}

/// Cleaned segment text has no quotation marks, and its only white space
/// is single spaces between words.
pub proof fn law_clean_text_tidy(s: Seq<char>)
    ensures
        tidy(clean_spec(s)),
{
    let t = strip_quotes(s);
    assert forall|i: int| 0 <= i < t.len() implies !is_quote(#[trigger] t[i]) by {
        s.lemma_filter_pred(|c: char| !is_quote(c), i);
    }
    lemma_words_clean(t);
    lemma_join_tidy(words(t));
}


/// Characters that cleaning keeps: anything but white space and the three
/// double quotation marks `"`, U+201C and U+201D.
pub open spec fn kept_by_cleaning() -> spec_fn(char) -> bool {
    |c: char| !is_ws(c) && c != '"' && c != '\u{201C}' && c != '\u{201D}'
}

pub open spec fn non_ws() -> spec_fn(char) -> bool {
    |c: char| !is_ws(c)
}

proof fn lemma_filter_push(s: Seq<char>, x: char, p: spec_fn(char) -> bool)
    ensures
        s.push(x).filter(p) == if p(x) {
            s.filter(p).push(x)
        } else {
            s.filter(p)
        },
{
    reveal(Seq::filter);
    assert(s.push(x).drop_last() =~= s);
}

proof fn lemma_strip_then_non_ws(s: Seq<char>)
    ensures
        strip_quotes(s).filter(non_ws()) == s.filter(kept_by_cleaning()),
    decreases s.len(),
{
    reveal(Seq::filter);
    if s.len() > 0 {
        let x = s.last();
        lemma_strip_then_non_ws(s.drop_last());
        assert(s.drop_last().push(x) =~= s);
        lemma_filter_push(strip_quotes(s.drop_last()), x, non_ws());
    }
}

proof fn lemma_join_words_non_ws(x: Seq<char>)
    ensures
        join(words(x), seq![' ']).filter(non_ws()) == x.filter(non_ws()),
    decreases x.len(),
{
    reveal(Seq::filter);
    if x.len() > 0 {
        let y = x.drop_last();
        let c = x.last();
        let w = words(y);
        lemma_join_words_non_ws(y);
        assert(y.push(c) =~= x);
        lemma_filter_push(y, c, non_ws());
        if is_ws(c) {
        } else if x.len() >= 2 && !is_ws(x[x.len() - 2]) {
            assert(y.last() == x[x.len() - 2]);
            lemma_words_last(y);
            lemma_join_update_last(w, c, seq![' ']);
            lemma_filter_push(join(w, seq![' ']), c, non_ws());
        } else {
            lemma_join_push(w, seq![c], seq![' ']);
            if w.len() > 0 {
                let j = join(w, seq![' ']);
                Seq::filter_distributes_over_add(j + seq![' '], seq![c], non_ws());
                Seq::filter_distributes_over_add(j, seq![' '], non_ws());
                assert(seq![' '].filter(non_ws()) =~= Seq::<char>::empty()) by {
                    lemma_filter_push(Seq::<char>::empty(), ' ', non_ws());
                }
                assert(seq![c].filter(non_ws()) =~= seq![c]) by {
                    lemma_filter_push(Seq::<char>::empty(), c, non_ws());
                    assert(Seq::<char>::empty().push(c) =~= seq![c]);
                }
            } else {
                assert(words(Seq::<char>::empty()).len() == 0);
                assert(join(w, seq![' ']) =~= Seq::<char>::empty());
                lemma_filter_push(Seq::<char>::empty(), c, non_ws());
                assert(Seq::<char>::empty().push(c) =~= seq![c]);
            }
        }
    }
}

proof fn lemma_quote_free_filter(t: Seq<char>)
    requires
        forall|i: int| 0 <= i < t.len() ==> !is_quote(#[trigger] t[i]),
    ensures
        t.filter(kept_by_cleaning()) == t.filter(non_ws()),
    decreases t.len(),
{
    reveal(Seq::filter);
    if t.len() > 0 {
        lemma_quote_free_filter(t.drop_last());
        assert(!is_quote(t[t.len() - 1]));
    }
}

/// Cleaning only takes away white space and double quotation marks: what
/// is left of the text once those are taken away is the same before and
/// after, every other character kept, in order.
pub proof fn law_clean_keeps_the_words(s: Seq<char>)
    ensures
        clean_spec(s).filter(kept_by_cleaning()) == s.filter(kept_by_cleaning()),
{
    law_clean_text_tidy(s);
    let c = clean_spec(s);
    assert forall|i: int| 0 <= i < c.len() implies !is_quote(#[trigger] c[i]) by {
        assert(tidy(c));
    }
    lemma_quote_free_filter(c);
    lemma_join_words_non_ws(strip_quotes(s));
    lemma_strip_then_non_ws(s);
}


/// Characters that are not one of the three double quotation marks.
pub open spec fn not_double_quote() -> spec_fn(char) -> bool {
    |c: char| c != '"' && c != '\u{201C}' && c != '\u{201D}'
}

proof fn lemma_strip_quotes_is(s: Seq<char>)
    ensures
        strip_quotes(s) == s.filter(not_double_quote()),
    decreases s.len(),
{
    reveal(Seq::filter);
    if s.len() > 0 {
        lemma_strip_quotes_is(s.drop_last());
    }
}

proof fn lemma_join_is_spaced(ws: Seq<Seq<char>>)
    ensures
        join(ws, seq![' ']) == crate::supervisor::spaced(ws),
    decreases ws.len(),
{
    if ws.len() > 1 {
        lemma_join_is_spaced(ws.drop_last());
        assert(join(ws.drop_last(), seq![' ']) + seq![' '] + ws.last() =~= join(
            ws.drop_last(),
            seq![' '],
        ) + (seq![' '] + ws.last()));
    }
}

/// Cleaning keeps the words: the words of the cleaned text are the words
/// of the text with its double quotation marks taken out, in order (and
/// the cleaned text is those words with one space between each two).
pub proof fn law_clean_keeps_word_boundaries(s: Seq<char>)
    ensures
        words(clean_spec(s)) == words(s.filter(not_double_quote())),
{
    let t = strip_quotes(s);
    assert forall|i: int| 0 <= i < t.len() implies !is_quote(#[trigger] t[i]) by {
        s.lemma_filter_pred(|c: char| !is_quote(c), i);
    }
    lemma_words_clean(t);
    let ws = words(t);
    assert forall|k: int| 0 <= k < ws.len() implies crate::supervisor::solid(#[trigger] ws[k]) by {
        assert(clean_word(ws[k]));
    }
    lemma_join_is_spaced(ws);
    crate::supervisor::lemma_words_spaced(ws);
    lemma_strip_quotes_is(s);
}

} // verus!
