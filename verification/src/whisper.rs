//! The transcription orchestrator's verified core: configuration with
//! fail-fast validation, the inference parameters handed to the external
//! speech engine, and the post-processing that turns the engine's finalized
//! segment list into a [`TranscriptionResult`].
//!
//! The engine itself (model loading, neural inference) is an outside
//! capability driven by the surrounding application: it performs the
//! blocking call and hands the finalized segments back as plain values,
//! which everything here is verified against. Temperatures and confidences
//! are fixed-point integers in micro-units, one million per 1.0, like the
//! sample scale of [`crate::audio`].

use vstd::prelude::*;

use crate::audio::AudioData;
use crate::error::TranscribeError;
use crate::text::{spec_trim, trim_text};
use crate::vad::spec_trim_input;
use vstd::arithmetic::div_mod::{lemma_div_is_ordered, lemma_div_multiples_vanish};

verus! {

/// Confidence and temperature scale: micro-units per 1.0.
pub const CONFIDENCE_UNIT: u32 = 1000000;

/// Neutral fallback confidence when a segment has tokens but no
/// retrievable probability: one half.
pub const CONFIDENCE_HALF: u32 = 500000;

/// The engine's native timestamp unit: one tick is ten milliseconds.
pub const MS_PER_TICK: u64 = 10;

/// Relies on num_cpus::get: the number of logical CPUs of the machine,
/// which its documentation promises to be at least 1.
#[verifier::external_body]
fn logical_cpu_count() -> (r: usize)
    ensures
        1 <= r,
{
    num_cpus::get()
}

/// The text of an optional string, for contracts over optional fields.
pub open spec fn opt_text(o: Option<String>) -> Option<Seq<char>> {
    match o {
        Some(s) => Some(s@),
        None => None,
    }
}

fn clone_opt_string(o: &Option<String>) -> (r: Option<String>)
    ensures
        opt_text(r) == opt_text(*o),
{
    match o {
        Some(s) => Some(s.clone()),
        None => None,
    }
}

/// Configuration of a transcription run: where the model lives, what the
/// engine should do, and how. Validation fails fast, before any inference
/// work begins.
#[derive(Debug, Clone)]
pub struct WhisperConfig {
    /// Path of the speech model file; it must exist.
    pub model_path: String,
    /// Optional path of a voice-activity companion model.
    pub vad_model_path: Option<String>,
    /// Target language, or automatic detection when unset.
    pub language: Option<String>,
    /// Whether to translate instead of transcribe.
    pub translate: bool,
    /// Worker threads for the engine; must be positive.
    pub n_threads: i32,
    /// Sampling temperature in micro-units, within `[0, CONFIDENCE_UNIT]`.
    pub temperature: u32,
    /// Optional cap on segment length.
    pub max_segment_length: Option<u32>,
    /// Optional prompt fed to the engine before the audio.
    pub initial_prompt: Option<String>,
    /// Whether the engine should emit debug output.
    pub debug_mode: bool,
}

impl Default for WhisperConfig {
    /// The default run: the stock model path, auto-detected language, no
    /// translation, as many threads as the machine has logical CPUs capped
    /// at eight, and greedy sampling.
    fn default() -> (c: WhisperConfig)
        ensures
            c.model_path@ == "models/ggml-base.bin"@,
            c.vad_model_path is None,
            c.language is None,
            !c.translate,
            1 <= c.n_threads <= 8,
            c.temperature == 0,
            c.max_segment_length is None,
            c.initial_prompt is None,
            !c.debug_mode,
    {
        let cpus = logical_cpu_count();
        let n_threads: i32 = if cpus > 8 {
            8
        } else {
            cpus as i32
        };
        WhisperConfig {
            model_path: String::from_str("models/ggml-base.bin"),
            vad_model_path: None,
            language: None,
            translate: false,
            n_threads,
            temperature: 0,
            max_segment_length: None,
            initial_prompt: None,
            debug_mode: false,
        }
    }
}

impl WhisperConfig {
    /// The default configuration with its model path replaced.
    pub fn new(model_path: &str) -> (c: WhisperConfig)
        ensures
            c.model_path@ == model_path@,
            c.vad_model_path is None,
            c.language is None,
            !c.translate,
            1 <= c.n_threads <= 8,
            c.temperature == 0,
            c.max_segment_length is None,
            c.initial_prompt is None,
            !c.debug_mode,
    {
        let mut c = WhisperConfig::default();
        c.model_path = String::from_str(model_path);
        c
    }

    pub fn with_vad_model_path(self, path: &str) -> (c: WhisperConfig)
        ensures
            c == (WhisperConfig { vad_model_path: c.vad_model_path, ..self }),
            c.vad_model_path matches Some(p) && p@ == path@,
    {
        WhisperConfig { vad_model_path: Some(String::from_str(path)), ..self }
    }

    pub fn with_language(self, language: &str) -> (c: WhisperConfig)
        ensures
            c == (WhisperConfig { language: c.language, ..self }),
            c.language matches Some(l) && l@ == language@,
    {
        WhisperConfig { language: Some(String::from_str(language)), ..self }
    }

    pub fn with_translate(self, translate: bool) -> (c: WhisperConfig)
        ensures
            c == (WhisperConfig { translate, ..self }),
    {
        WhisperConfig { translate, ..self }
    }

    pub fn with_threads(self, n_threads: i32) -> (c: WhisperConfig)
        ensures
            c == (WhisperConfig { n_threads, ..self }),
    {
        WhisperConfig { n_threads, ..self }
    }

    /// Sets the sampling temperature, clamped into `[0, CONFIDENCE_UNIT]`.
    pub fn with_temperature(self, temperature: u32) -> (c: WhisperConfig)
        ensures
            c == (WhisperConfig { temperature: c.temperature, ..self }),
            c.temperature == if temperature > CONFIDENCE_UNIT {
                CONFIDENCE_UNIT
            } else {
                temperature
            },
    {
        let t = if temperature > CONFIDENCE_UNIT {
            CONFIDENCE_UNIT
        } else {
            temperature
        };
        WhisperConfig { temperature: t, ..self }
    }

    pub fn with_initial_prompt(self, prompt: &str) -> (c: WhisperConfig)
        ensures
            c == (WhisperConfig { initial_prompt: c.initial_prompt, ..self }),
            c.initial_prompt matches Some(p) && p@ == prompt@,
    {
        WhisperConfig { initial_prompt: Some(String::from_str(prompt)), ..self }
    }

    pub fn with_debug_mode(self, debug_mode: bool) -> (c: WhisperConfig)
        ensures
            c == (WhisperConfig { debug_mode, ..self }),
    {
        WhisperConfig { debug_mode, ..self }
    }

    /// Validates the configuration before any inference work: the model
    /// file must exist, the thread count must be positive, and the
    /// temperature must lie in the unit interval. The caller reports
    /// whether the model file exists on disk; the first failed check wins.
    pub fn validate(&self, model_file_exists: bool) -> (r: Result<(), TranscribeError>)
        ensures
            r is Ok <==> (model_file_exists && self.n_threads > 0 && self.temperature
                <= CONFIDENCE_UNIT),
            !model_file_exists ==> r == Err::<(), TranscribeError>(
                TranscribeError::ModelFileMissing,
            ),
            model_file_exists && self.n_threads <= 0 ==> r == Err::<(), TranscribeError>(
                TranscribeError::NonPositiveThreadCount,
            ),
            model_file_exists && self.n_threads > 0 && self.temperature > CONFIDENCE_UNIT ==> r
                == Err::<(), TranscribeError>(TranscribeError::TemperatureOutOfRange),
    {
        if !model_file_exists {
            return Err(TranscribeError::ModelFileMissing);
        }
        if self.n_threads <= 0 {
            return Err(TranscribeError::NonPositiveThreadCount);
        }
        if self.temperature > CONFIDENCE_UNIT {
            return Err(TranscribeError::TemperatureOutOfRange);
        }
        Ok(())
    }

    /// Validates the optional voice-activity model path before inference:
    /// when one is configured, the file must exist on disk.
    pub fn check_vad_model(&self, vad_model_file_exists: bool) -> (r: Result<(), TranscribeError>)
        ensures
            r is Ok <==> (self.vad_model_path is None || vad_model_file_exists),
            r is Err ==> r == Err::<(), TranscribeError>(TranscribeError::VadModelFileMissing),
    {
        match &self.vad_model_path {
            Some(_) => {
                if vad_model_file_exists {
                    Ok(())
                } else {
                    Err(TranscribeError::VadModelFileMissing)
                }
            },
            None => Ok(()),
        }
    }
}

/// Everything the external engine is told for one inference call. Built
/// from a [`WhisperConfig`]; per-token timestamps are always requested, so
/// confidences can be computed afterwards.
#[derive(Debug, Clone)]
pub struct InferenceParams {
    pub n_threads: i32,
    pub translate: bool,
    pub temperature: u32,
    pub language: Option<String>,
    pub token_timestamps: bool,
    pub initial_prompt: Option<String>,
    pub debug_mode: bool,
    pub vad_model_path: Option<String>,
}

/// Builds the engine parameters for one call from the configuration,
/// mirroring every relevant field and always requesting token timestamps.
pub fn build_inference_params(config: &WhisperConfig) -> (p: InferenceParams)
    ensures
        p.n_threads == config.n_threads,
        p.translate == config.translate,
        p.temperature == config.temperature,
        opt_text(p.language) == opt_text(config.language),
        p.token_timestamps,
        opt_text(p.initial_prompt) == opt_text(config.initial_prompt),
        p.debug_mode == config.debug_mode,
        opt_text(p.vad_model_path) == opt_text(config.vad_model_path),
{
    InferenceParams {
        n_threads: config.n_threads,
        translate: config.translate,
        temperature: config.temperature,
        language: clone_opt_string(&config.language),
        token_timestamps: true,
        initial_prompt: clone_opt_string(&config.initial_prompt),
        debug_mode: config.debug_mode,
        vad_model_path: clone_opt_string(&config.vad_model_path),
    }
}

/// Prepares a sample buffer for the engine: multi-channel input is
/// downmixed to mono; input at any rate other than 16 kHz is rejected,
/// since the orchestrator does not resample.
pub fn prepare_audio_samples(audio_data: &AudioData) -> (r: Result<Vec<i32>, TranscribeError>)
    requires
        audio_data.config.channels >= 1,
    ensures
        r is Ok <==> audio_data.config.sample_rate == 16000,
        r is Err ==> r == Err::<Vec<i32>, TranscribeError>(
            TranscribeError::SampleRateMismatch(audio_data.config.sample_rate),
        ),
        r matches Ok(v) ==> v@ == spec_trim_input(*audio_data),
{
    if audio_data.config.sample_rate != 16000 {
        return Err(TranscribeError::SampleRateMismatch(audio_data.config.sample_rate));
    }
    if audio_data.config.channels > 1 {
        let mono = audio_data.to_mono();
        proof {
            assert(mono.samples@ =~= spec_trim_input(*audio_data));
        }
        Ok(mono.samples)
    } else {
        let copy = audio_data.samples.clone();
        proof {
            assert(copy@ =~= spec_trim_input(*audio_data));
        }
        Ok(copy)
    }
}

/// Whether a path names a WAV file: it ends in `.wav`, case-insensitively.
pub open spec fn spec_is_wav_path(s: Seq<char>) -> bool {
    s.len() >= 4 && s[s.len() - 4] == '.' && (s[s.len() - 3] == 'w' || s[s.len() - 3] == 'W') && (
    s[s.len() - 2] == 'a' || s[s.len() - 2] == 'A') && (s[s.len() - 1] == 'v' || s[s.len() - 1]
        == 'V')
}

/// Accepts only paths that name a WAV file, the one container this
/// pipeline reads.
pub fn is_valid_aduio_file(audio_path: &str) -> (r: Result<(), TranscribeError>)
    ensures
        r is Ok <==> spec_is_wav_path(audio_path@),
        r is Err ==> r == Err::<(), TranscribeError>(TranscribeError::NotWavFile),
{
    let len = audio_path.unicode_len();
    if len < 4 {
        return Err(TranscribeError::NotWavFile);
    }
    let c0 = audio_path.get_char(len - 4);
    let c1 = audio_path.get_char(len - 3);
    let c2 = audio_path.get_char(len - 2);
    let c3 = audio_path.get_char(len - 1);
    if c0 == '.' && (c1 == 'w' || c1 == 'W') && (c2 == 'a' || c2 == 'A') && (c3 == 'v' || c3
        == 'V') {
        Ok(())
    } else {
        Err(TranscribeError::NotWavFile)
    }
}


/// One finalized segment as the external engine reports it after
/// inference: native tick timestamps, raw text, and one entry per token
/// holding its probability in micro-units where the engine could retrieve
/// one.
#[derive(Debug, Clone)]
pub struct EngineSegment {
    pub start_ticks: u64,
    pub end_ticks: u64,
    pub text: String,
    pub token_probs: Vec<Option<u32>>,
}

/// One recognized utterance: a 1-based index, start and end times in
/// milliseconds, the trimmed text, and the mean per-token probability in
/// micro-units.
#[derive(Debug, Clone)]
pub struct TranscriptionSegment {
    pub index: i32,
    pub start_time: u64,
    pub end_time: u64,
    pub text: String,
    pub confidence: u32,
}

/// A full transcription: the space-joined text of all segments, the
/// configured language if any, the ordered segment list, and wall-clock
/// and audio durations in milliseconds.
#[derive(Debug, Clone)]
pub struct TranscriptionResult {
    pub text: String,
    pub language: Option<String>,
    pub segments: Vec<TranscriptionSegment>,
    pub processing_time: u64,
    pub audio_duration: u64,
}

/// How many token probabilities were retrievable.
pub open spec fn spec_count_probs(probs: Seq<Option<u32>>) -> int
    decreases probs.len(),
{
    if probs.len() == 0 {
        0
    } else {
        spec_count_probs(probs.drop_last()) + if probs.last() is Some {
            1int
        } else {
            0int
        }
    }
}

/// The sum of the retrievable token probabilities.
pub open spec fn spec_sum_probs(probs: Seq<Option<u32>>) -> int
    decreases probs.len(),
{
    if probs.len() == 0 {
        0
    } else {
        spec_sum_probs(probs.drop_last()) + match probs.last() {
            Some(p) => p as int,
            None => 0,
        }
    }
}

/// A segment's confidence: 0 without tokens, the mean of the retrievable
/// token probabilities when there is at least one, else the neutral
/// fallback of one half.
pub open spec fn spec_segment_confidence(probs: Seq<Option<u32>>) -> int {
    if probs.len() == 0 {
        0
    } else if spec_count_probs(probs) > 0 {
        spec_sum_probs(probs) / spec_count_probs(probs)
    } else {
        CONFIDENCE_HALF as int
    }
}

proof fn lemma_prob_sums(probs: Seq<Option<u32>>)
    ensures
        0 <= spec_count_probs(probs) <= probs.len(),
        0 <= spec_sum_probs(probs),
        (forall|i: int| 0 <= i < probs.len() ==> (#[trigger] probs[i] matches Some(p) ==> p
            <= CONFIDENCE_UNIT)) ==> spec_sum_probs(probs) <= spec_count_probs(probs)
            * CONFIDENCE_UNIT,
    decreases probs.len(),
{
    if probs.len() > 0 {
        lemma_prob_sums(probs.drop_last());
        assert(forall|i: int| 0 <= i < probs.len() - 1 ==> probs.drop_last()[i] == probs[i]);
        let c = spec_count_probs(probs.drop_last());
        assert(c * CONFIDENCE_UNIT + CONFIDENCE_UNIT == (c + 1) * CONFIDENCE_UNIT)
            by (nonlinear_arith);
    }
}

/// Computes a segment's confidence from its token probabilities; the
/// result never leaves the unit interval.
pub fn calculate_segment_confidence(token_probs: &Vec<Option<u32>>) -> (c: u32)
    requires
        forall|i: int| 0 <= i < token_probs@.len() ==> (#[trigger] token_probs@[i] matches Some(p)
            ==> p <= CONFIDENCE_UNIT),
    ensures
        c == spec_segment_confidence(token_probs@),
        c <= CONFIDENCE_UNIT,
{
    let n = token_probs.len();
    if n == 0 {
        return 0;
    }
    let mut total: u128 = 0;
    let mut valid: usize = 0;
    let mut i: usize = 0;
    while i < n
        invariant
            n == token_probs@.len(),
            i <= n,
            forall|j: int| 0 <= j < token_probs@.len() ==> (#[trigger] token_probs@[j] matches Some(
                p,
            ) ==> p <= CONFIDENCE_UNIT),
            total == spec_sum_probs(token_probs@.subrange(0, i as int)),
            valid == spec_count_probs(token_probs@.subrange(0, i as int)),
            total <= i * (CONFIDENCE_UNIT as int),
            valid <= i,
        decreases n - i,
    {
        proof {
            assert(token_probs@.subrange(0, i as int + 1).drop_last() =~= token_probs@.subrange(
                0,
                i as int,
            ));
            assert(token_probs@.subrange(0, i as int + 1).last() == token_probs@[i as int]);
            assert((i as int) * (CONFIDENCE_UNIT as int) + CONFIDENCE_UNIT as int == (i as int + 1)
                * (CONFIDENCE_UNIT as int)) by (nonlinear_arith);
        }
        match token_probs[i] {
            Some(p) => {
                total = total + p as u128;
                valid = valid + 1;
            },
            None => {},
        }
        i = i + 1;
    }
    proof {
        assert(token_probs@.subrange(0, n as int) =~= token_probs@);
    }
    if valid > 0 {
        let mean = total / valid as u128;
        proof {
            lemma_prob_sums(token_probs@);
            lemma_div_is_ordered(
                total as int,
                valid as int * CONFIDENCE_UNIT as int,
                valid as int,
            );
            lemma_div_multiples_vanish(CONFIDENCE_UNIT as int, valid as int);
            assert(mean <= CONFIDENCE_UNIT);
        }
        mean as u32
    } else {
        CONFIDENCE_HALF
    }
}

/// The post-processed form of the engine's finalized segment list: for
/// each kept segment, its 1-based position in the engine's list, its
/// start and end in milliseconds (ticks scaled by [`MS_PER_TICK`]), its
/// trimmed text, and its confidence. A segment whose trimmed text is
/// empty contributes nothing.
pub open spec fn spec_extracted(raw: Seq<EngineSegment>) -> Seq<(int, int, int, Seq<char>, int)>
    decreases raw.len(),
{
    if raw.len() == 0 {
        Seq::<(int, int, int, Seq<char>, int)>::empty()
    } else {
        let rest = spec_extracted(raw.drop_last());
        let e = raw.last();
        if spec_trim(e.text@).len() > 0 {
            rest.push(
                (
                    raw.len() as int,
                    e.start_ticks * MS_PER_TICK,
                    e.end_ticks * MS_PER_TICK,
                    spec_trim(e.text@),
                    spec_segment_confidence(e.token_probs@),
                ),
            )
        } else {
            rest
        }
    }
}


/// The data model of a segment list: the post-processed segments carry
/// strictly increasing 1-based indices, each naming its position in the
/// engine's own list.
pub proof fn lemma_extracted_indices_increasing(raw: Seq<EngineSegment>)
    ensures
        ({
            let segs = spec_extracted(raw);
            &&& (forall|k: int| 0 <= k < segs.len() ==> 1 <= #[trigger] segs[k].0 <= raw.len())
            &&& (forall|a: int, b: int|
                0 <= a < b < segs.len() ==> #[trigger] segs[a].0 < #[trigger] segs[b].0)
        }),
    decreases raw.len(),
{
    if raw.len() > 0 {
        lemma_extracted_indices_increasing(raw.drop_last());
        let rest = spec_extracted(raw.drop_last());
        let segs = spec_extracted(raw);
        if spec_trim(raw.last().text@).len() > 0 {
            assert(forall|k: int| 0 <= k < rest.len() ==> #[trigger] segs[k] == rest[k]);
            assert(segs.last().0 == raw.len());
        }
    }
}

/// The texts of the kept segments joined by single spaces, in order.
pub open spec fn spec_joined_text(segs: Seq<(int, int, int, Seq<char>, int)>) -> Seq<char>
    decreases segs.len(),
{
    if segs.len() == 0 {
        Seq::<char>::empty()
    } else if segs.len() == 1 {
        segs[0].3
    } else {
        spec_joined_text(segs.drop_last()) + seq![' '] + segs.last().3
    }
}

/// Turns the engine's finalized segment list into a result: segments in
/// engine order with tick timestamps scaled to milliseconds, whitespace
/// trimmed from each text, empty texts skipped entirely, per-segment
/// confidences as the mean token probability, and the full text joined by
/// single spaces.
pub fn extract_transcription_result(
    raw: &Vec<EngineSegment>,
    language: &Option<String>,
    processing_time_ms: u64,
    audio_duration_ms: u64,
) -> (r: TranscriptionResult)
    requires
        raw@.len() <= i32::MAX,
        forall|i: int| #![trigger raw@[i]] 0 <= i < raw@.len() ==> raw@[i].start_ticks * MS_PER_TICK
            <= u64::MAX && raw@[i].end_ticks * MS_PER_TICK <= u64::MAX,
        forall|i: int, j: int|
            #![trigger raw@[i].token_probs@[j]]
            0 <= i < raw@.len() && 0 <= j < raw@[i].token_probs@.len() ==> (raw@[i].token_probs@[j]
                matches Some(p) ==> p <= CONFIDENCE_UNIT),
    ensures
        ({
            let segs = spec_extracted(raw@);
            &&& r.segments@.len() == segs.len()
            &&& (forall|k: int|
                #![trigger r.segments@[k]]
                0 <= k < segs.len() ==> r.segments@[k].index == segs[k].0 && r.segments@[k].start_time
                    == segs[k].1 && r.segments@[k].end_time == segs[k].2 && r.segments@[k].text@
                    == segs[k].3 && r.segments@[k].confidence == segs[k].4)
            &&& r.text@ == spec_joined_text(segs)
        }),
        opt_text(r.language) == opt_text(*language),
        r.processing_time == processing_time_ms,
        r.audio_duration == audio_duration_ms,
        forall|k: int|
            0 <= k < r.segments@.len() ==> #[trigger] r.segments@[k].confidence <= CONFIDENCE_UNIT,
{
    let n = raw.len();
    let mut segments: Vec<TranscriptionSegment> = Vec::new();
    let mut full_text = String::new();
    let mut i: usize = 0;
    while i < n
        invariant
            n == raw@.len(),
            n <= i32::MAX,
            i <= n,
            forall|j: int| #![trigger raw@[j]] 0 <= j < raw@.len() ==> raw@[j].start_ticks
                * MS_PER_TICK <= u64::MAX && raw@[j].end_ticks * MS_PER_TICK <= u64::MAX,
            forall|a: int, b: int|
                #![trigger raw@[a].token_probs@[b]]
                0 <= a < raw@.len() && 0 <= b < raw@[a].token_probs@.len() ==> (raw@[
                    a
                ].token_probs@[b] matches Some(p) ==> p <= CONFIDENCE_UNIT),
            ({
                let segs = spec_extracted(raw@.subrange(0, i as int));
                &&& segments@.len() == segs.len()
                &&& (forall|k: int|
                    #![trigger segments@[k]]
                    0 <= k < segs.len() ==> segments@[k].index == segs[k].0 && segments@[k].start_time
                        == segs[k].1 && segments@[k].end_time == segs[k].2 && segments@[k].text@
                        == segs[k].3 && segments@[k].confidence == segs[k].4)
                &&& full_text@ == spec_joined_text(segs)
                &&& (forall|k: int|
                    0 <= k < segments@.len() ==> #[trigger] segments@[k].confidence
                        <= CONFIDENCE_UNIT)
            }),
        decreases n - i,
    {
        proof {
            assert(raw@.subrange(0, i as int + 1).drop_last() =~= raw@.subrange(0, i as int));
            assert(raw@.subrange(0, i as int + 1).last() == raw@[i as int]);
        }
        let segment_text = trim_text(raw[i].text.as_str());
        if !segment_text.as_str().is_empty() {
            let start_time = raw[i].start_ticks * 10;
            let end_time = raw[i].end_ticks * 10;
            let confidence = calculate_segment_confidence(&raw[i].token_probs);
            let index = (i as i32) + 1;
            if segments.len() > 0 {
                full_text.append(" ");
            }
            full_text.append(segment_text.as_str());
            segments.push(
                TranscriptionSegment {
                    index,
                    start_time,
                    end_time,
                    text: segment_text,
                    confidence,
                },
            );
            proof {
                reveal_strlit(" ");
                let segs = spec_extracted(raw@.subrange(0, i as int + 1));
                assert(segs.drop_last() == spec_extracted(raw@.subrange(0, i as int)));
                if segs.len() > 1 {
                    assert(full_text@ == spec_joined_text(segs));
                } else {
                    assert(spec_joined_text(segs.drop_last()).len() == 0);
                    assert(full_text@ =~= spec_joined_text(segs));
                }
            }
        }
        i = i + 1;
    }
    proof {
        assert(raw@.subrange(0, n as int) =~= raw@);
    }
    TranscriptionResult {
        text: full_text,
        language: clone_opt_string(language),
        segments,
        processing_time: processing_time_ms,
        audio_duration: audio_duration_ms,
    }
}


/// The sum of the confidences of a segment list.
pub open spec fn spec_sum_confidence(segs: Seq<TranscriptionSegment>) -> int
    decreases segs.len(),
{
    if segs.len() == 0 {
        0
    } else {
        spec_sum_confidence(segs.drop_last()) + segs.last().confidence
    }
}

/// The mean confidence of a segment list, 0 when it is empty.
pub open spec fn spec_average_confidence(segs: Seq<TranscriptionSegment>) -> int {
    if segs.len() == 0 {
        0
    } else {
        spec_sum_confidence(segs) / segs.len() as int
    }
}

/// Whether every confidence of a segment list lies in the unit interval,
/// as the data model promises.
pub open spec fn spec_confidences_wf(segs: Seq<TranscriptionSegment>) -> bool {
    forall|i: int| 0 <= i < segs.len() ==> #[trigger] segs[i].confidence <= CONFIDENCE_UNIT
}

proof fn lemma_sum_confidence_bound(segs: Seq<TranscriptionSegment>)
    requires
        spec_confidences_wf(segs),
    ensures
        0 <= spec_sum_confidence(segs) <= segs.len() * (CONFIDENCE_UNIT as int),
    decreases segs.len(),
{
    if segs.len() > 0 {
        assert(forall|i: int| 0 <= i < segs.len() - 1 ==> segs.drop_last()[i] == segs[i]);
        lemma_sum_confidence_bound(segs.drop_last());
        assert((segs.len() - 1) * (CONFIDENCE_UNIT as int) + CONFIDENCE_UNIT as int == segs.len()
            * (CONFIDENCE_UNIT as int)) by (nonlinear_arith);
    }
}

/// The mean of confidences from the unit interval lies in the unit
/// interval, and the mean of no segments is zero.
pub proof fn lemma_average_confidence_in_unit_interval(segs: Seq<TranscriptionSegment>)
    requires
        spec_confidences_wf(segs),
    ensures
        0 <= spec_average_confidence(segs) <= CONFIDENCE_UNIT,
        segs.len() == 0 ==> spec_average_confidence(segs) == 0,
{
    if segs.len() > 0 {
        lemma_sum_confidence_bound(segs);
        lemma_div_is_ordered(
            spec_sum_confidence(segs),
            segs.len() * (CONFIDENCE_UNIT as int),
            segs.len() as int,
        );
        lemma_div_multiples_vanish(CONFIDENCE_UNIT as int, segs.len() as int);
        vstd::arithmetic::div_mod::lemma_div_pos_is_pos(
            spec_sum_confidence(segs),
            segs.len() as int,
        );
    }
}

/// The segments of a list whose confidence reaches a threshold, in order.
pub open spec fn spec_filtered_segments(segs: Seq<TranscriptionSegment>, min: int) -> Seq<
    TranscriptionSegment,
>
    decreases segs.len(),
{
    if segs.len() == 0 {
        Seq::<TranscriptionSegment>::empty()
    } else {
        let rest = spec_filtered_segments(segs.drop_last(), min);
        if segs.last().confidence >= min {
            rest.push(segs.last())
        } else {
            rest
        }
    }
}

/// The texts of a segment list joined by single spaces, in order.
pub open spec fn spec_joined_segment_text(segs: Seq<TranscriptionSegment>) -> Seq<char>
    decreases segs.len(),
{
    if segs.len() == 0 {
        Seq::<char>::empty()
    } else if segs.len() == 1 {
        segs[0].text@
    } else {
        spec_joined_segment_text(segs.drop_last()) + seq![' '] + segs.last().text@
    }
}

impl TranscriptionResult {
    /// Processing time divided by audio duration, in thousandths; 0 when
    /// the duration is 0. Below 1000 means faster than real time.
    pub fn real_time_factor(&self) -> (r: u64)
        requires
            self.processing_time * 1000 <= u64::MAX,
        ensures
            self.audio_duration == 0 ==> r == 0,
            self.audio_duration > 0 ==> r == self.processing_time * 1000
                / self.audio_duration as int,
    {
        if self.audio_duration == 0 {
            return 0;
        }
        self.processing_time * 1000 / self.audio_duration
    }

    /// The mean confidence over all segments, 0 when there are none.
    pub fn average_confidence(&self) -> (c: u32)
        requires
            spec_confidences_wf(self.segments@),
        ensures
            c == spec_average_confidence(self.segments@),
            c <= CONFIDENCE_UNIT,
            self.segments@.len() == 0 ==> c == 0,
    {
        let n = self.segments.len();
        if n == 0 {
            return 0;
        }
        let mut total: u128 = 0;
        let mut i: usize = 0;
        while i < n
            invariant
                n == self.segments@.len(),
                i <= n,
                spec_confidences_wf(self.segments@),
                total == spec_sum_confidence(self.segments@.subrange(0, i as int)),
                total <= i * (CONFIDENCE_UNIT as int),
            decreases n - i,
        {
            proof {
                assert(self.segments@.subrange(0, i as int + 1).drop_last() =~= self.segments@
                    .subrange(0, i as int));
                assert(self.segments@.subrange(0, i as int + 1).last() == self.segments@[i as int]);
                assert((i as int) * (CONFIDENCE_UNIT as int) + CONFIDENCE_UNIT as int == (i as int
                    + 1) * (CONFIDENCE_UNIT as int)) by (nonlinear_arith);
            }
            total = total + self.segments[i].confidence as u128;
            i = i + 1;
        }
        proof {
            assert(self.segments@.subrange(0, n as int) =~= self.segments@);
        }
        let mean = total / n as u128;
        proof {
            lemma_sum_confidence_bound(self.segments@);
            lemma_div_is_ordered(total as int, n as int * (CONFIDENCE_UNIT as int), n as int);
            lemma_div_multiples_vanish(CONFIDENCE_UNIT as int, n as int);
            assert(mean <= CONFIDENCE_UNIT);
        }
        mean as u32
    }

    /// A new result holding only the segments at or above the threshold,
    /// with the full text rejoined from the kept segments alone; language
    /// and timings carry over.
    pub fn filter_by_confidence(&self, min_confidence: u32) -> (r: TranscriptionResult)
        ensures
            ({
                let kept = spec_filtered_segments(self.segments@, min_confidence as int);
                &&& r.segments@.len() == kept.len()
                &&& (forall|k: int|
                    #![trigger r.segments@[k]]
                    0 <= k < kept.len() ==> r.segments@[k].index == kept[k].index
                        && r.segments@[k].start_time == kept[k].start_time && r.segments@[k].end_time
                        == kept[k].end_time && r.segments@[k].text@ == kept[k].text@
                        && r.segments@[k].confidence == kept[k].confidence)
                &&& r.text@ == spec_joined_segment_text(kept)
            }),
            opt_text(r.language) == opt_text(self.language),
            r.processing_time == self.processing_time,
            r.audio_duration == self.audio_duration,
    {
        let n = self.segments.len();
        let mut filtered: Vec<TranscriptionSegment> = Vec::new();
        let mut text = String::new();
        let mut i: usize = 0;
        while i < n
            invariant
                n == self.segments@.len(),
                i <= n,
                ({
                    let kept = spec_filtered_segments(self.segments@.subrange(0, i as int),
                    min_confidence as int);
                    &&& filtered@.len() == kept.len()
                    &&& (forall|k: int|
                        #![trigger filtered@[k]]
                        0 <= k < kept.len() ==> filtered@[k].index == kept[k].index
                            && filtered@[k].start_time == kept[k].start_time
                            && filtered@[k].end_time == kept[k].end_time && filtered@[k].text@
                            == kept[k].text@ && filtered@[k].confidence == kept[k].confidence)
                    &&& text@ == spec_joined_segment_text(kept)
                }),
            decreases n - i,
        {
            proof {
                assert(self.segments@.subrange(0, i as int + 1).drop_last() =~= self.segments@
                    .subrange(0, i as int));
                assert(self.segments@.subrange(0, i as int + 1).last() == self.segments@[i as int]);
            }
            if self.segments[i].confidence >= min_confidence {
                let seg = self.segments[i].clone_segment();
                if filtered.len() > 0 {
                    text.append(" ");
                }
                text.append(seg.text.as_str());
                filtered.push(seg);
                proof {
                    reveal_strlit(" ");
                    let kept = spec_filtered_segments(self.segments@.subrange(0, i as int + 1),
                    min_confidence as int);
                    assert(kept.drop_last() == spec_filtered_segments(self.segments@.subrange(
                        0,
                        i as int,
                    ), min_confidence as int));
                    if kept.len() > 1 {
                        assert(text@ == spec_joined_segment_text(kept));
                    } else {
                        assert(spec_joined_segment_text(kept.drop_last()).len() == 0);
                        assert(text@ =~= spec_joined_segment_text(kept));
                    }
                }
            }
            i = i + 1;
        }
        proof {
            assert(self.segments@.subrange(0, n as int) =~= self.segments@);
        }
        TranscriptionResult {
            text,
            language: clone_opt_string(&self.language),
            segments: filtered,
            processing_time: self.processing_time,
            audio_duration: self.audio_duration,
        }
    }
}

impl TranscriptionSegment {
    /// A value-equal copy of this segment.
    pub fn clone_segment(&self) -> (r: TranscriptionSegment)
        ensures
            r.index == self.index,
            r.start_time == self.start_time,
            r.end_time == self.end_time,
            r.text@ == self.text@,
            r.confidence == self.confidence,
    {
        TranscriptionSegment {
            index: self.index,
            start_time: self.start_time,
            end_time: self.end_time,
            text: self.text.clone(),
            confidence: self.confidence,
        }
    }
}

} // verus!
