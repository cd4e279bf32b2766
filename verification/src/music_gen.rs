//! Generating music from a description with MusicGen.
//!
//! The networks run outside the library, which says what they are asked and what becomes of their
//! answers: which tokens go in, which tensors are handed on, which tokens are kept and how the
//! codebooks are lined up for the audio decoder.

use crate::keyed::StringSet;
use crate::numbers::Real;
use crate::order::{ints, is_ordered, lemma_order_by, order_by, order_by_keys, positions};
use crate::paths::{join, join_path, user_dir, user_directory};
use crate::sam_cache::{has_file, DirectoryListing};
use crate::text::{decimal, listed, option_view, owned, push_decimal, views};
use vstd::prelude::*;
use vstd::string::*;

verus! {

/// Codebooks of the audio codec.
pub const NUM_CODEBOOKS: usize = 4;

/// Layers of the decoder.
pub const NUM_LAYERS: usize = 24;

/// Attention heads of a layer.
pub const NUM_HEADS: usize = 16;

/// Numbers for each attention head.
pub const HEAD_DIM: usize = 64;

/// Tokens of a codebook.
pub const VOCAB_SIZE: usize = 2048;

/// The token that starts a codebook and fills its delay.
pub const BOS_TOKEN: i64 = 2048;

/// The most tokens of a piece: thirty seconds.
pub const MAX_NEW_TOKENS: usize = 1500;

/// How many of the likeliest tokens are drawn from.
pub const TOP_K: usize = 250;

/// Samples for each second of the music.
pub const SAMPLE_RATE: u32 = 32000;

// ---------------------------------------------------------------- jobs
/// Music to generate.
#[derive(Debug)]
pub struct MusicGenJob {
    pub job_id: String,
    pub prompt: String,
    pub duration_secs: Real,
    pub output_path: String,
    pub track_id: String,
    pub timeline_start_ns: u64,
}

/// What became of a job.
#[derive(Debug)]
pub struct MusicGenResult {
    pub job_id: String,
    pub output_path: String,
    pub duration_ns: u64,
    pub track_id: String,
    pub timeline_start_ns: u64,
    pub success: bool,
    pub error: Option<String>,
}

/// What became of a job, as text.
pub struct ResultView {
    pub job_id: Seq<char>,
    pub output_path: Seq<char>,
    pub duration_ns: u64,
    pub track_id: Seq<char>,
    pub timeline_start_ns: u64,
    pub success: bool,
    pub error: Option<Seq<char>>,
}

impl MusicGenResult {
    pub open spec fn view(&self) -> ResultView {
        ResultView {
            job_id: self.job_id@,
            output_path: self.output_path@,
            duration_ns: self.duration_ns,
            track_id: self.track_id@,
            timeline_start_ns: self.timeline_start_ns,
            success: self.success,
            error: option_view(self.error),
        }
    }
}

/// What is told of a job: that it failed, or the length of its music.
pub open spec fn outcome_of(job: MusicGenJob, outcome: Result<u64, Seq<char>>) -> ResultView {
    ResultView {
        job_id: job.job_id@,
        output_path: job.output_path@,
        duration_ns: match outcome {
            Ok(d) => d,
            Err(_) => 0,
        },
        track_id: job.track_id@,
        timeline_start_ns: job.timeline_start_ns,
        success: outcome is Ok,
        error: match outcome {
            Ok(_) => None,
            Err(e) => Some(e),
        },
    }
}

/// `outcome_of` a job that has run.
pub fn run_music_gen(job: &MusicGenJob, outcome: Result<u64, String>) -> (r: MusicGenResult)
    ensures
        r@ == outcome_of(
            *job,
            match outcome {
                Ok(d) => Ok(d),
                Err(e) => Err(e@),
            },
        ),
{
    match outcome {
        Ok(duration_ns) => MusicGenResult {
            job_id: job.job_id.clone(),
            output_path: job.output_path.clone(),
            duration_ns,
            track_id: job.track_id.clone(),
            timeline_start_ns: job.timeline_start_ns,
            success: true,
            error: None,
        },
        Err(e) => MusicGenResult {
            job_id: job.job_id.clone(),
            output_path: job.output_path.clone(),
            duration_ns: 0,
            track_id: job.track_id.clone(),
            timeline_start_ns: job.timeline_start_ns,
            success: false,
            error: Some(e),
        },
    }
}

/// What is told of a job whose worker broke down.
pub fn worker_breakdown(job: &MusicGenJob, message: &str) -> (r: MusicGenResult)
    ensures
        r@ == outcome_of(*job, Err("Worker panic: "@ + message@)),
{
    let mut e = owned("Worker panic: ");
    e.append(message);
    run_music_gen(job, Err(e))
}

// ---------------------------------------------------------------- where things are
/// The files of the model.
pub open spec fn required() -> Seq<Seq<char>> {
    seq![
        "text_encoder.onnx"@,
        "decoder_model_merged.onnx"@,
        "encodec_decode.onnx"@,
        "tokenizer.json"@,
    ]
}

/// The data directory of the user.
pub open spec fn data_dir(data_home: Option<Seq<char>>, home: Option<Seq<char>>) -> Seq<char> {
    user_dir(data_home, home, ""@, ".local/share"@)
}

/// Where the user puts the model.
pub fn model_install_dir(data_home: &Option<String>, home: &Option<String>) -> (r: String)
    ensures
        r@ == join_path(
            data_dir(option_view(*data_home), option_view(*home)),
            "ultimateslice/models/musicgen-small"@,
        ),
{
    join(
        &user_directory(data_home, home, "", ".local/share"),
        "ultimateslice/models/musicgen-small",
    )
}

/// Where the music goes.
pub fn music_gen_cache_dir(data_home: &Option<String>, home: &Option<String>) -> (r: String)
    ensures
        r@ == join_path(
            data_dir(option_view(*data_home), option_view(*home)),
            "ultimateslice/generated-music"@,
        ),
{
    join(&user_directory(data_home, home, "", ".local/share"), "ultimateslice/generated-music")
}

/// The directories that are searched for the model, in order: next to the program, in the working
/// directory, in the sandbox and in the data directory of the user.
pub open spec fn search_dirs(
    exe_dir: Option<Seq<char>>,
    data_home: Option<Seq<char>>,
    home: Option<Seq<char>>,
) -> Seq<Seq<char>> {
    (match exe_dir {
        Some(d) => seq![join_path(d, "data/models/musicgen-small"@)],
        None => Seq::empty(),
    }) + seq![
        "data/models/musicgen-small"@,
        "/app/share/ultimateslice/models/musicgen-small"@,
        join_path(data_dir(data_home, home), "ultimateslice/models/musicgen-small"@),
    ]
}

/// `search_dirs` for the directory of the program and the environment.
pub fn candidate_dirs(exe_dir: &Option<String>, data_home: &Option<String>, home: &Option<String>) -> (r:
    Vec<String>)
    ensures
        views(r@) == search_dirs(option_view(*exe_dir), option_view(*data_home), option_view(*home)),
{
    let mut r: Vec<String> = Vec::new();
    if let Some(d) = exe_dir {
        r.push(join(d, "data/models/musicgen-small"));
    }
    r.push(owned("data/models/musicgen-small"));
    r.push(owned("/app/share/ultimateslice/models/musicgen-small"));
    r.push(model_install_dir(data_home, home));
    proof {
        assert(views(r@) =~= search_dirs(
            option_view(*exe_dir),
            option_view(*data_home),
            option_view(*home),
        ));
    }
    r
}

/// Whether a directory holds the whole model.
pub open spec fn holds_model(d: DirectoryListing) -> bool {
    forall|i: int| 0 <= i < required().len() ==> has_file(d, #[trigger] required()[i])
}

/// The first directory that holds the whole model.
pub open spec fn model_among(dirs: Seq<DirectoryListing>) -> Option<Seq<char>>
    decreases dirs.len(),
{
    if dirs.len() == 0 {
        None
    } else if holds_model(dirs[0]) {
        Some(dirs[0].dir@)
    } else {
        model_among(dirs.drop_first())
    }
}

fn is_complete(d: &DirectoryListing) -> (r: bool)
    ensures
        r == holds_model(*d),
{
    let a: bool = listed(&d.files, "text_encoder.onnx");
    let b: bool = listed(&d.files, "decoder_model_merged.onnx");
    let c: bool = listed(&d.files, "encodec_decode.onnx");
    let e: bool = listed(&d.files, "tokenizer.json");
    proof {
        let q = required();
        assert(q[0] == "text_encoder.onnx"@);
        assert(q[1] == "decoder_model_merged.onnx"@);
        assert(q[2] == "encodec_decode.onnx"@);
        assert(q[3] == "tokenizer.json"@);
        assert(a == has_file(*d, q[0]));
        assert(b == has_file(*d, q[1]));
        assert(c == has_file(*d, q[2]));
        assert(e == has_file(*d, q[3]));
    }
    a && b && c && e
}

/// The first of the directories that holds the whole model.
pub fn find_model_dir(dirs: &Vec<DirectoryListing>) -> (r: Option<String>)
    ensures
        option_view(r) == model_among(dirs@),
{
    let mut i: usize = 0;
    proof {
        assert(dirs@.subrange(0, dirs@.len() as int) =~= dirs@);
    }
    while i < dirs.len()
        invariant
            i <= dirs@.len(),
            model_among(dirs@) == model_among(dirs@.subrange(i as int, dirs@.len() as int)),
        decreases dirs.len() - i,
    {
        proof {
            assert(dirs@.subrange(i as int, dirs@.len() as int).drop_first() =~= dirs@.subrange(
                i + 1,
                dirs@.len() as int,
            ));
        }
        if is_complete(&dirs[i]) {
            return Some(dirs[i].dir.clone());
        }
        i = i + 1;
    }
    None
}

// ---------------------------------------------------------------- tensors
/// The name of tensor `i` of those that a step hands to the next: for each layer the keys and the
/// values of the decoder, then those of the encoder.
pub open spec fn tensor_name(prefix: Seq<char>, i: nat) -> Seq<char> {
    prefix + "."@ + decimal(i / 4) + (if i % 4 == 0 {
        ".decoder.key"@
    } else if i % 4 == 1 {
        ".decoder.value"@
    } else if i % 4 == 2 {
        ".encoder.key"@
    } else {
        ".encoder.value"@
    })
}

fn named_tensor(prefix: &str, i: usize) -> (r: String)
    ensures
        r@ == tensor_name(prefix@, i as nat),
{
    let mut r = owned(prefix);
    r.append(".");
    push_decimal(&mut r, (i / 4) as u64);
    let sub: usize = i % 4;
    if sub == 0 {
        r.append(".decoder.key");
    } else if sub == 1 {
        r.append(".decoder.value");
    } else if sub == 2 {
        r.append(".encoder.key");
    } else {
        r.append(".encoder.value");
    }
    r
}

/// The name under which tensor `i` goes into a step.
pub fn past_name(i: usize) -> (r: String)
    ensures
        r@ == tensor_name("past_key_values"@, i as nat),
{
    named_tensor("past_key_values", i)
}

/// The name under which tensor `i` comes out of a step.
pub fn present_name(i: usize) -> (r: String)
    ensures
        r@ == tensor_name("present"@, i as nat),
{
    named_tensor("present", i)
}

/// Where tensor `i` for the next step comes from.
#[derive(Debug, Clone, Copy, PartialEq, Eq, Structural)]
pub enum TensorSource {
    /// What came out of the step.
    Output,
    /// What went into the step.
    Previous,
    /// A tensor without any positions.
    Empty,
}

/// Whether tensor `i` belongs to the encoder.
pub open spec fn is_encoder_tensor(i: int) -> bool {
    i % 4 >= 2
}

/// Where tensor `i` for the next step comes from, after a step that had tensors or was the first,
/// and that gave a tensor of this shape or none. The tensors of the encoder stay as they are once
/// they are known; an output of the wrong rank or for no batch counts as none.
pub open spec fn source_of(cached: bool, i: int, shape: Option<Seq<usize>>) -> TensorSource {
    if cached && is_encoder_tensor(i) {
        TensorSource::Previous
    } else if shape is Some && shape->Some_0.len() == 4 && shape->Some_0[0] > 0 {
        TensorSource::Output
    } else if cached {
        TensorSource::Previous
    } else {
        TensorSource::Empty
    }
}

/// `source_of` a tensor.
pub fn tensor_source(cached: bool, i: usize, shape: &Option<Vec<usize>>) -> (r: TensorSource)
    ensures
        r == source_of(
            cached,
            i as int,
            match *shape {
                Some(s) => Some(s@),
                None => None,
            },
        ),
{
    if cached && i % 4 >= 2 {
        return TensorSource::Previous;
    }
    if let Some(s) = shape {
        if s.len() == 4 && s[0] > 0 {
            return TensorSource::Output;
        }
    }
    if cached {
        TensorSource::Previous
    } else {
        TensorSource::Empty
    }
}

// ---------------------------------------------------------------- drawing a token
/// The indices of the `k` likeliest tokens, the likeliest first. A smaller key stands for a likelier
/// token.
pub fn top_k(keys: &Vec<u64>, k: usize) -> (r: Vec<usize>)
    ensures
        positions(r@) == order_by(ints(keys@)).subrange(
            0,
            if k < keys@.len() {
                k as int
            } else {
                keys@.len() as int
            },
        ),
{
    let all = order_by_keys(keys);
    proof {
        lemma_order_by(ints(keys@));
        assert(positions(all@).len() == all@.len());
    }
    let n: usize = if k < keys.len() {
        k
    } else {
        keys.len()
    };
    let mut r: Vec<usize> = Vec::new();
    let mut i: usize = 0;
    while i < n
        invariant
            i <= n <= all@.len(),
            r@ == all@.subrange(0, i as int),
        decreases n - i,
    {
        r.push(all[i]);
        i = i + 1;
        proof {
            assert(r@ =~= all@.subrange(0, i as int));
        }
    }
    proof {
        assert(positions(r@) =~= positions(all@).subrange(0, n as int));
    }
    r
}

/// None of the tokens that are left out is likelier than one that is drawn from.
pub proof fn lemma_top_k(keys: Seq<int>, k: int, kept: int, left: int)
    requires
        0 <= kept < k <= left < keys.len(),
    ensures
        keys[order_by(keys)[kept]] <= keys[order_by(keys)[left]],
{
    lemma_order_by(keys);
    assert(is_ordered(order_by(keys), keys, keys.len()));
}

/// Thirty-one random bits from the nanoseconds of the clock and the number of tokens.
pub open spec fn random_bits(nanos: u64, len: u64) -> u64 {
    vstd::wrapping::u64_specs::wrapping_add(
        vstd::wrapping::u64_specs::wrapping_mul(nanos ^ len, 6364136223846793005),
        1442695040888963407,
    ) >> 33
}

/// `random_bits` of a time and a number of tokens.
pub fn draw_bits(nanos: u64, len: u64) -> (r: u64)
    ensures
        r == random_bits(nanos, len),
        r < 0x8000_0000,
{
    let seed: u64 = (nanos ^ len).wrapping_mul(6364136223846793005).wrapping_add(
        1442695040888963407,
    );
    proof {
        assert(seed >> 33 < 0x8000_0000) by (bit_vector);
    }
    seed >> 33
}

/// The first position that is marked.
pub open spec fn first_marked(marks: Seq<bool>) -> Option<int>
    decreases marks.len(),
{
    if marks.len() == 0 {
        None
    } else {
        match first_marked(marks.drop_last()) {
            Some(i) => Some(i),
            None => if marks.last() {
                Some(marks.len() - 1)
            } else {
                None
            },
        }
    }
}

/// The token that is drawn: the first whose share of the chances, with those before it, goes
/// beyond the random number; the last where rounding leaves none.
pub open spec fn drawn_token(indices: Seq<usize>, beyond: Seq<bool>) -> i64 {
    match first_marked(beyond) {
        Some(i) => indices[i] as i64,
        None => if indices.len() > 0 {
            indices.last() as i64
        } else {
            0
        },
    }
}

/// `drawn_token` of the likeliest tokens.
pub fn draw_token(indices: &Vec<usize>, beyond: &Vec<bool>) -> (r: i64)
    requires
        beyond@.len() == indices@.len(),
    ensures
        r == drawn_token(indices@, beyond@),
{
    let mut i: usize = 0;
    let mut found: Option<usize> = None;
    proof {
        assert(beyond@.subrange(0, 0) =~= Seq::empty());
    }
    while i < beyond.len()
        invariant
            i <= beyond@.len(),
            match found {
                Some(f) => f < i && first_marked(beyond@.subrange(0, i as int)) == Some(f as int),
                None => first_marked(beyond@.subrange(0, i as int)) is None,
            },
        decreases beyond.len() - i,
    {
        proof {
            let next = beyond@.subrange(0, i + 1);
            assert(next.drop_last() =~= beyond@.subrange(0, i as int));
        }
        if found.is_none() && beyond[i] {
            found = Some(i);
        }
        i = i + 1;
    }
    proof {
        assert(beyond@.subrange(0, i as int) =~= beyond@);
    }
    match found {
        Some(f) => indices[f] as i64,
        None => if indices.len() > 0 {
            indices[indices.len() - 1] as i64
        } else {
            0
        },
    }
}

// ---------------------------------------------------------------- generation
/// The tokens of each codebook.
pub open spec fn token_views(tokens: Seq<Vec<i64>>) -> Seq<Seq<i64>> {
    tokens.map_values(|t: Vec<i64>| t@)
}

/// Where the scores of a codebook begin, where a token of it is to be drawn. The codebooks start
/// one step after another, and scores that are cut short give no token.
pub open spec fn scores_at(step: nat, codebook: int, scores: nat) -> Option<int> {
    let at = codebook * VOCAB_SIZE;
    if step < codebook || at + VOCAB_SIZE > scores {
        None
    } else {
        Some(at)
    }
}

/// The token that a codebook gets at a step.
pub open spec fn next_token(step: nat, codebook: int, scores: nat, drawn: Seq<i64>) -> i64 {
    if scores_at(step, codebook, scores) is Some {
        drawn[codebook]
    } else {
        BOS_TOKEN
    }
}

/// The tokens of a piece as they grow.
#[derive(Debug)]
pub struct Generation {
    pub tokens: Vec<Vec<i64>>,
    pub step: usize,
    pub steps: usize,
}

impl Generation {
    /// Every codebook has its start token and one for each step, and is delayed by one step more
    /// than the one before.
    pub open spec fn wf(&self) -> bool {
        &&& self.step <= self.steps <= MAX_NEW_TOKENS
        &&& self.tokens@.len() == NUM_CODEBOOKS
        &&& forall|c: int|
            0 <= c < NUM_CODEBOOKS ==> (#[trigger] self.tokens@[c])@.len() == self.step + 1
        &&& forall|c: int, i: int|
            0 <= c < NUM_CODEBOOKS && 0 <= i <= c && i <= self.step
                ==> #[trigger] self.tokens@[c]@[i] == BOS_TOKEN
    }

    /// The tokens of each codebook.
    pub open spec fn view(&self) -> Seq<Seq<i64>> {
        token_views(self.tokens@)
    }

    /// Starts a piece of a number of tokens.
    pub fn begin(max_new_tokens: usize) -> (r: Generation)
        ensures
            r.wf(),
            r.step == 0,
            r.steps == (if max_new_tokens < MAX_NEW_TOKENS {
                max_new_tokens
            } else {
                MAX_NEW_TOKENS
            }),
    {
        let steps: usize = if max_new_tokens < MAX_NEW_TOKENS {
            max_new_tokens
        } else {
            MAX_NEW_TOKENS
        };
        let mut tokens: Vec<Vec<i64>> = Vec::new();
        tokens.push(vec![BOS_TOKEN]);
        tokens.push(vec![BOS_TOKEN]);
        tokens.push(vec![BOS_TOKEN]);
        tokens.push(vec![BOS_TOKEN]);
        Generation { tokens, step: 0, steps }
    }

    /// Whether every step has been taken.
    pub fn is_done(&self) -> (r: bool)
        ensures
            r == (self.step >= self.steps),
    {
        self.step >= self.steps
    }

    /// Whether the next step is given tensors of the one before.
    pub fn uses_cache(&self) -> (r: bool)
        ensures
            r == (self.step > 0),
    {
        self.step > 0
    }

    /// The tokens that go into the next step, one for each codebook: its newest. At the first step
    /// that is the whole codebook.
    pub fn decoder_ids(&self) -> (r: Vec<i64>)
        requires
            self.wf(),
        ensures
            r@ == self@.map_values(|t: Seq<i64>| t.last()),
            self.step == 0 ==> forall|c: int|
                0 <= c < NUM_CODEBOOKS ==> #[trigger] self@[c] == seq![r@[c]],
    {
        let mut r: Vec<i64> = Vec::new();
        let mut c: usize = 0;
        while c < NUM_CODEBOOKS
            invariant
                c <= NUM_CODEBOOKS,
                self.wf(),
                r@.len() == c,
                forall|k: int| 0 <= k < c ==> #[trigger] r@[k] == self@[k].last(),
            decreases NUM_CODEBOOKS - c,
        {
            proof {
                assert(self.tokens@[c as int]@.len() == self.step + 1);
                assert(self@[c as int] == self.tokens@[c as int]@);
            }
            r.push(self.tokens[c][self.step]);
            c = c + 1;
        }
        proof {
            assert(r@ =~= self@.map_values(|t: Seq<i64>| t.last()));
            assert forall|c: int| self.step == 0 && 0 <= c < NUM_CODEBOOKS implies #[trigger] self@[c]
                == seq![r@[c]] by {
                assert(self.tokens@[c]@.len() == 1);
                assert(self@[c] =~= seq![r@[c]]);
            }
        }
        r
    }

    /// Where the scores of a codebook begin among all the scores of a step, where a token of it is
    /// to be drawn.
    pub fn scores_for(&self, codebook: usize, scores: usize) -> (r: Option<usize>)
        requires
            codebook < NUM_CODEBOOKS,
        ensures
            match r {
                Some(at) => scores_at(self.step as nat, codebook as int, scores as nat) == Some(
                    at as int,
                ),
                None => scores_at(self.step as nat, codebook as int, scores as nat) is None,
            },
    {
        let at: usize = codebook * VOCAB_SIZE;
        if self.step < codebook || at + VOCAB_SIZE > scores {
            None
        } else {
            Some(at)
        }
    }

    /// Takes the step: each codebook gets the token that was drawn for it, or the start token
    /// where none was to be drawn.
    pub fn take_step(&mut self, scores: usize, drawn: &Vec<i64>)
        requires
            old(self).wf(),
            old(self).step < old(self).steps,
            drawn@.len() == NUM_CODEBOOKS,
        ensures
            final(self).wf(),
            final(self).step == old(self).step + 1,
            final(self).steps == old(self).steps,
            forall|c: int|
                0 <= c < NUM_CODEBOOKS ==> #[trigger] final(self)@[c] == old(self)@[c].push(
                    next_token(old(self).step as nat, c, scores as nat, drawn@),
                ),
    {
        let ghost before = *self;
        let mut c: usize = 0;
        while c < NUM_CODEBOOKS
            invariant
                c <= NUM_CODEBOOKS,
                before.wf(),
                drawn@.len() == NUM_CODEBOOKS,
                self.step == before.step,
                self.steps == before.steps,
                self.tokens@.len() == NUM_CODEBOOKS,
                forall|k: int|
                    0 <= k < NUM_CODEBOOKS ==> (#[trigger] self.tokens@[k])@ == (if k < c {
                        before.tokens@[k]@.push(
                            next_token(before.step as nat, k, scores as nat, drawn@),
                        )
                    } else {
                        before.tokens@[k]@
                    }),
            decreases NUM_CODEBOOKS - c,
        {
            let token: i64 = match self.scores_for(c, scores) {
                Some(_) => drawn[c],
                None => BOS_TOKEN,
            };
            self.tokens[c].push(token);
            c = c + 1;
        }
        self.step = self.step + 1;
        proof {
            assert forall|k: int| 0 <= k < NUM_CODEBOOKS implies (#[trigger] self.tokens@[k])@.len()
                == self.step + 1 by {
                assert(before.tokens@[k]@.len() == before.step + 1);
            }
            assert forall|k: int, i: int|
                0 <= k < NUM_CODEBOOKS && 0 <= i <= k && i <= self.step implies #[trigger] self.tokens@[k]@[i]
                == BOS_TOKEN by {
                assert(before.tokens@[k]@.len() == before.step + 1);
                if i <= before.step {
                    assert(before.tokens@[k]@[i] == BOS_TOKEN);
                }
            }
        }
    }
}

/// The least of the lengths.
pub open spec fn least_length(tokens: Seq<Seq<i64>>) -> nat
    decreases tokens.len(),
{
    if tokens.len() == 0 {
        0
    } else if tokens.len() == 1 {
        tokens[0].len()
    } else {
        let front = least_length(tokens.drop_last());
        if tokens.last().len() < front {
            tokens.last().len()
        } else {
            front
        }
    }
}

/// The tokens of all codebooks for the same moments, one codebook after another: the start token
/// and the delay of each are taken off, and all are cut to the same length.
pub open spec fn lined_up(tokens: Seq<Seq<i64>>, n: nat) -> Seq<i64> {
    Seq::new(
        (NUM_CODEBOOKS * n) as nat,
        |i: int| tokens[i / (n as int)][i / (n as int) + 1 + i % (n as int)],
    )
}

/// Lines the codebooks up. Returns their tokens and how many each has; there is nothing where the
/// last of them has not begun.
pub fn align_codebooks(tokens: &Vec<Vec<i64>>) -> (r: Result<(Vec<i64>, usize), String>)
    requires
        tokens@.len() == NUM_CODEBOOKS,
    ensures
        ({
            let least = least_length(token_views(tokens@));
            if least <= NUM_CODEBOOKS {
                r matches Err(e) && e@ == "No tokens generated"@
            } else {
                r matches Ok(t) && t.1 == least - NUM_CODEBOOKS && t.0@ == lined_up(
                    token_views(tokens@),
                    t.1 as nat,
                )
            }
        }),
{
    let ghost t = token_views(tokens@);
    let least: usize = shortest(tokens);
    if least <= NUM_CODEBOOKS {
        return Err(owned("No tokens generated"));
    }
    let n: usize = least - NUM_CODEBOOKS;
    let mut codes: Vec<i64> = Vec::new();
    let mut c: usize = 0;
    while c < NUM_CODEBOOKS
        invariant
            c <= NUM_CODEBOOKS,
            t == token_views(tokens@),
            tokens@.len() == NUM_CODEBOOKS,
            0 < n,
            n + NUM_CODEBOOKS <= usize::MAX,
            forall|k: int|
                0 <= k < NUM_CODEBOOKS ==> n + NUM_CODEBOOKS <= (#[trigger] t[k]).len(),
            codes@.len() == c * n,
            forall|i: int| 0 <= i < c * n ==> #[trigger] codes@[i] == lined_up(t, n as nat)[i],
        decreases NUM_CODEBOOKS - c,
    {
        let mut i: usize = 0;
        proof {
            assert(t[c as int] == tokens@[c as int]@);
        }
        while i < n
            invariant
                i <= n,
                c < NUM_CODEBOOKS,
                tokens@.len() == NUM_CODEBOOKS,
                t == token_views(tokens@),
                t[c as int] == tokens@[c as int]@,
                0 < n,
                n + NUM_CODEBOOKS <= usize::MAX,
                n + NUM_CODEBOOKS <= t[c as int].len(),
                codes@.len() == c * n + i,
                forall|k: int|
                    0 <= k < c * n + i ==> #[trigger] codes@[k] == lined_up(t, n as nat)[k],
            decreases n - i,
        {
            codes.push(tokens[c][c + 1 + i]);
            proof {
                let k = c * n + i;
                vstd::arithmetic::div_mod::lemma_fundamental_div_mod_converse(
                    k,
                    n as int,
                    c as int,
                    i as int,
                );
                assert(k < NUM_CODEBOOKS * n) by (nonlinear_arith)
                    requires
                        k == c * n + i,
                        i < n,
                        c + 1 <= NUM_CODEBOOKS,
                ;
            }
            i = i + 1;
        }
        proof {
            assert((c + 1) * n == c * n + n) by (nonlinear_arith);
        }
        c = c + 1;
    }
    proof {
        assert(codes@ =~= lined_up(t, n as nat));
    }
    Ok((codes, n))
}

fn shortest(tokens: &Vec<Vec<i64>>) -> (r: usize)
    requires
        tokens@.len() > 0,
    ensures
        r == least_length(token_views(tokens@)),
        forall|k: int| 0 <= k < tokens@.len() ==> r <= (#[trigger] token_views(tokens@)[k]).len(),
{
    let ghost t = token_views(tokens@);
    let mut least: usize = tokens[0].len();
    let mut i: usize = 1;
    proof {
        assert(t.subrange(0, 1)[0] == tokens@[0]@);
    }
    while i < tokens.len()
        invariant
            1 <= i <= tokens@.len(),
            t == token_views(tokens@),
            least == least_length(t.subrange(0, i as int)),
            forall|k: int| 0 <= k < i ==> least <= (#[trigger] t[k]).len(),
        decreases tokens.len() - i,
    {
        proof {
            let next = t.subrange(0, i + 1);
            assert(next.drop_last() =~= t.subrange(0, i as int));
            assert(next.last() == tokens@[i as int]@);
        }
        if tokens[i].len() < least {
            least = tokens[i].len();
        }
        i = i + 1;
    }
    proof {
        assert(t.subrange(0, i as int) =~= t);
    }
    least
}

/// Lining up undoes the delay: what a codebook was given at a step stands, once lined up, at the
/// moment that comes before the step by as many as the codebook is delayed.
pub proof fn lemma_lined_up(tokens: Seq<Seq<i64>>, n: nat, codebook: int, moment: int)
    requires
        0 <= codebook < NUM_CODEBOOKS,
        0 <= moment < n,
    ensures
        lined_up(tokens, n)[codebook * n + moment] == tokens[codebook][codebook + 1 + moment],
{
    let k = codebook * n + moment;
    vstd::arithmetic::div_mod::lemma_fundamental_div_mod_converse(k, n as int, codebook, moment);
    assert(0 <= k < NUM_CODEBOOKS * n) by (nonlinear_arith)
        requires
            k == codebook * n + moment,
            0 <= moment < n,
            0 <= codebook,
            codebook + 1 <= NUM_CODEBOOKS,
    ;
}

/// Whether the audio decoder gave anything.
pub fn check_samples(count: usize) -> (r: Result<(), String>)
    ensures
        r is Ok <==> count > 0,
        r matches Err(e) ==> e@ == "EnCodec produced no audio samples"@,
{
    if count == 0 {
        Err(owned("EnCodec produced no audio samples"))
    } else {
        Ok(())
    }
}

// ---------------------------------------------------------------- cache
/// How far the jobs have come.
#[derive(Debug, Clone, Copy, PartialEq, Eq, Structural)]
pub struct MusicGenProgress {
    pub total: usize,
    pub completed: usize,
    pub in_flight: bool,
}

/// The music of a session.
pub struct MusicGenCache {
    pub model_dir: Option<String>,
    pub pending: StringSet,
    pub total_requested: usize,
    pub total_completed: usize,
    pub cache_root: String,
}

/// The jobs that are left after results came back.
pub open spec fn left_after(pending: Set<Seq<char>>, done: Seq<MusicGenResult>) -> Set<Seq<char>>
    decreases done.len(),
{
    if done.len() == 0 {
        pending
    } else {
        left_after(pending, done.drop_last()).remove(done.last().job_id@)
    }
}

impl MusicGenCache {
    pub open spec fn wf(&self) -> bool {
        self.pending.wf()
    }

    /// A cache with a model, if one was found, and the directory for the music.
    pub fn new(model_dir: Option<String>, cache_root: String) -> (r: MusicGenCache)
        ensures
            r.wf(),
            r.model_dir == model_dir,
            r.cache_root == cache_root,
            r.pending@ == Set::<Seq<char>>::empty(),
            r.total_requested == 0,
            r.total_completed == 0,
    {
        MusicGenCache {
            model_dir,
            pending: StringSet::new(),
            total_requested: 0,
            total_completed: 0,
            cache_root,
        }
    }

    /// Whether there is a model.
    pub fn is_available(&self) -> (r: bool)
        ensures
            r == (self.model_dir is Some),
    {
        self.model_dir.is_some()
    }

    /// Asks for music. Nothing happens without a model or where the job is under way; otherwise
    /// there is the job to do, with its file.
    pub fn request(&mut self, job: MusicGenJob) -> (r: Option<MusicGenJob>)
        requires
            old(self).wf(),
            old(self).total_requested < usize::MAX,
        ensures
            final(self).wf(),
            final(self).model_dir == old(self).model_dir,
            final(self).cache_root == old(self).cache_root,
            final(self).total_completed == old(self).total_completed,
            r is Some <==> old(self).model_dir is Some && !old(self).pending@.contains(job.job_id@),
            match r {
                Some(j) => {
                    &&& final(self).pending@ == old(self).pending@.insert(job.job_id@)
                    &&& final(self).total_requested == old(self).total_requested + 1
                    &&& j.output_path@ == join_path(
                        old(self).cache_root@,
                        "musicgen_"@ + job.job_id@ + ".wav"@,
                    )
                    &&& j == (MusicGenJob { output_path: j.output_path, ..job })
                },
                None => final(self).pending == old(self).pending && final(self).total_requested
                    == old(self).total_requested,
            },
    {
        if self.model_dir.is_none() || self.pending.contains(&job.job_id) {
            return None;
        }
        let mut name = owned("musicgen_");
        name.append(&job.job_id);
        name.append(".wav");
        let output_path = join(&self.cache_root, &name);
        self.pending.insert(job.job_id.clone());
        self.total_requested = self.total_requested + 1;
        Some(
            MusicGenJob {
                job_id: job.job_id,
                prompt: job.prompt,
                duration_secs: job.duration_secs,
                output_path,
                track_id: job.track_id,
                timeline_start_ns: job.timeline_start_ns,
            },
        )
    }

    /// Takes in results, in the order in which they came, and hands them on.
    pub fn poll(&mut self, done: Vec<MusicGenResult>) -> (r: Vec<MusicGenResult>)
        requires
            old(self).wf(),
            old(self).total_completed + done@.len() <= usize::MAX,
        ensures
            final(self).wf(),
            final(self).model_dir == old(self).model_dir,
            final(self).cache_root == old(self).cache_root,
            final(self).total_requested == old(self).total_requested,
            r == done,
            final(self).pending@ == left_after(old(self).pending@, done@),
            final(self).total_completed == old(self).total_completed + done@.len(),
    {
        let ghost start = *self;
        let mut i: usize = 0;
        proof {
            assert(done@.subrange(0, 0) =~= Seq::empty());
        }
        while i < done.len()
            invariant
                i <= done@.len(),
                self.wf(),
                self.model_dir == start.model_dir,
                self.cache_root == start.cache_root,
                self.total_requested == start.total_requested,
                self.total_completed == start.total_completed + i,
                start.total_completed + done@.len() <= usize::MAX,
                self.pending@ == left_after(start.pending@, done@.subrange(0, i as int)),
            decreases done.len() - i,
        {
            proof {
                let next = done@.subrange(0, i + 1);
                assert(next.drop_last() =~= done@.subrange(0, i as int));
                assert(next.last() == done@[i as int]);
            }
            self.pending.remove(&done[i].job_id);
            self.total_completed = self.total_completed + 1;
            i = i + 1;
        }
        proof {
            assert(done@.subrange(0, i as int) =~= done@);
        }
        done
    }

    /// How far the jobs have come.
    pub fn progress(&self) -> (r: MusicGenProgress)
        requires
            self.wf(),
        ensures
            r.total == self.total_requested,
            r.completed == self.total_completed,
            r.in_flight == (self.pending@ != Set::<Seq<char>>::empty()),
    {
        MusicGenProgress {
            total: self.total_requested,
            completed: self.total_completed,
            in_flight: !self.pending.is_empty(),
        }
    }
}

/// The least length is that of one codebook, and none is shorter.
pub proof fn lemma_least_length(tokens: Seq<Seq<i64>>, k: int)
    requires
        0 <= k < tokens.len(),
    ensures
        least_length(tokens) <= tokens[k].len(),
        exists|j: int| 0 <= j < tokens.len() && (#[trigger] tokens[j]).len() == least_length(tokens),
    decreases tokens.len(),
{
    if tokens.len() == 1 {
        assert(tokens[0].len() == least_length(tokens));
    } else {
        let front = tokens.drop_last();
        if k < front.len() {
            lemma_least_length(front, k);
            assert(front[k] == tokens[k]);
        } else {
            lemma_least_length(front, 0);
        }
        let j = choose|j: int| 0 <= j < front.len() && (#[trigger] front[j]).len() == least_length(
            front,
        );
        assert(tokens[j] == front[j]);
        assert(tokens[tokens.len() - 1] == tokens.last());
    }
}

/// A codebook draws from its own scores once its delay is over, and gets the start token until then.
pub proof fn lemma_scores_at(step: nat, codebook: int, scores: nat, drawn: Seq<i64>)
    requires
        0 <= codebook < NUM_CODEBOOKS,
    ensures
        step < codebook ==> next_token(step, codebook, scores, drawn) == BOS_TOKEN,
        step >= codebook && scores >= NUM_CODEBOOKS * VOCAB_SIZE ==> next_token(
            step,
            codebook,
            scores,
            drawn,
        ) == drawn[codebook] && scores_at(step, codebook, scores) == Some(codebook * VOCAB_SIZE),
        scores_at(step, codebook, scores) matches Some(at) ==> at + VOCAB_SIZE <= scores,
{
}

/// The first marked position is marked, and none before it is; there is none only where nothing is
/// marked.
pub proof fn lemma_first_marked(marks: Seq<bool>)
    ensures
        match first_marked(marks) {
            Some(i) => 0 <= i < marks.len() && marks[i] && forall|j: int|
                0 <= j < i ==> !#[trigger] marks[j],
            None => forall|j: int| 0 <= j < marks.len() ==> !#[trigger] marks[j],
        },
    decreases marks.len(),
{
    if marks.len() > 0 {
        let front = marks.drop_last();
        lemma_first_marked(front);
        match first_marked(front) {
            Some(i) => {
                assert(marks[i] == front[i]);
                assert forall|j: int| 0 <= j < i implies !#[trigger] marks[j] by {
                    assert(front[j] == marks[j]);
                }
            },
            None => {
                assert forall|j: int| 0 <= j < marks.len() - 1 implies !#[trigger] marks[j] by {
                    assert(front[j] == marks[j]);
                }
            },
        }
    }
}

/// What is drawn is one of the tokens that are drawn from.
pub proof fn lemma_drawn_token(indices: Seq<usize>, beyond: Seq<bool>)
    requires
        indices.len() > 0,
        beyond.len() == indices.len(),
    ensures
        exists|i: int|
            0 <= i < indices.len() && drawn_token(indices, beyond) == #[trigger] indices[i] as i64
                && (beyond[i] || i == indices.len() - 1) && forall|j: int|
                0 <= j < i ==> !#[trigger] beyond[j],
{
    lemma_first_marked(beyond);
    match first_marked(beyond) {
        Some(i) => {
            assert(drawn_token(indices, beyond) == indices[i] as i64);
        },
        None => {
            assert(drawn_token(indices, beyond) == indices[indices.len() - 1] as i64);
        },
    }
}

/// The tensors of the encoder, once known, go on from step to step; those of the decoder are taken
/// from the step that made them, if it did.
pub proof fn lemma_tensor_sources(i: nat, shape: Seq<usize>)
    ensures
        i % 4 >= 2 ==> source_of(true, i as int, Some(shape)) == TensorSource::Previous,
        shape.len() == 4 && shape[0] > 0 ==> source_of(false, i as int, Some(shape))
            == TensorSource::Output,
        shape.len() == 4 && shape[0] > 0 && i % 4 < 2 ==> source_of(true, i as int, Some(shape))
            == TensorSource::Output,
        source_of(true, i as int, None) == TensorSource::Previous,
        source_of(false, i as int, None) == TensorSource::Empty,
        shape.len() != 4 || shape[0] == 0 ==> source_of(true, i as int, Some(shape))
            == TensorSource::Previous && source_of(false, i as int, Some(shape))
            == TensorSource::Empty,
{
}

/// The model is found in the first directory that holds all its files, and only where one does.
pub proof fn lemma_model_among(dirs: Seq<DirectoryListing>)
    ensures
        match model_among(dirs) {
            Some(d) => exists|k: int|
                0 <= k < dirs.len() && (#[trigger] dirs[k]).dir@ == d && holds_model(dirs[k])
                    && forall|j: int| 0 <= j < k ==> !holds_model(#[trigger] dirs[j]),
            None => forall|k: int| 0 <= k < dirs.len() ==> !holds_model(#[trigger] dirs[k]),
        },
    decreases dirs.len(),
{
    if dirs.len() > 0 && !holds_model(dirs[0]) {
        let rest = dirs.drop_first();
        lemma_model_among(rest);
        match model_among(rest) {
            Some(d) => {
                let k = choose|k: int|
                    0 <= k < rest.len() && (#[trigger] rest[k]).dir@ == d && holds_model(rest[k])
                        && forall|j: int| 0 <= j < k ==> !holds_model(#[trigger] rest[j]);
                assert(dirs[k + 1] == rest[k]);
                assert forall|j: int| 0 <= j < k + 1 implies !holds_model(#[trigger] dirs[j]) by {
                    if j > 0 {
                        assert(rest[j - 1] == dirs[j]);
                    }
                }
            },
            None => {
                assert forall|k: int| 0 <= k < dirs.len() implies !holds_model(
                    #[trigger] dirs[k],
                ) by {
                    if k > 0 {
                        assert(rest[k - 1] == dirs[k]);
                    }
                }
            },
        }
    }
}

/// The jobs that are left are those that did not come back.
pub proof fn lemma_left_after(pending: Set<Seq<char>>, done: Seq<MusicGenResult>, id: Seq<char>)
    ensures
        left_after(pending, done).contains(id) <==> pending.contains(id) && forall|i: int|
            0 <= i < done.len() ==> (#[trigger] done[i]).job_id@ != id,
    decreases done.len(),
{
    if done.len() > 0 {
        let front = done.drop_last();
        lemma_left_after(pending, front, id);
        assert(done[done.len() - 1] == done.last());
        if left_after(pending, front).contains(id) && done.last().job_id@ != id {
            assert forall|i: int| 0 <= i < done.len() implies (#[trigger] done[i]).job_id@ != id by {
                if i < front.len() {
                    assert(front[i] == done[i]);
                }
            }
        }
        if forall|i: int| 0 <= i < done.len() ==> (#[trigger] done[i]).job_id@ != id {
            assert forall|i: int| 0 <= i < front.len() implies (#[trigger] front[i]).job_id@
                != id by {
                assert(front[i] == done[i]);
            }
        }
    }
}

/// What is told of a job tells which it is and where its music goes: its length where there is some,
/// and why not where there is none.
pub proof fn lemma_outcome(job: MusicGenJob, length: u64, why: Seq<char>)
    ensures
        ({
            let good = outcome_of(job, Ok(length));
            let bad = outcome_of(job, Err(why));
            &&& good.success && good.duration_ns == length && good.error is None
            &&& !bad.success && bad.duration_ns == 0 && bad.error == Some(why)
            &&& good.job_id == job.job_id@ && bad.job_id == job.job_id@
            &&& good.output_path == job.output_path@ && bad.output_path == job.output_path@
            &&& good.track_id == job.track_id@ && bad.track_id == job.track_id@
            &&& good.timeline_start_ns == job.timeline_start_ns
            &&& bad.timeline_start_ns == job.timeline_start_ns
        }),
{
}

/// The tensors of a layer are the keys and values of the decoder, then those of the encoder.
pub proof fn lemma_tensor_names(prefix: Seq<char>, layer: nat)
    ensures
        tensor_name(prefix, 4 * layer) == prefix + "."@ + decimal(layer) + ".decoder.key"@,
        tensor_name(prefix, 4 * layer + 1) == prefix + "."@ + decimal(layer) + ".decoder.value"@,
        tensor_name(prefix, 4 * layer + 2) == prefix + "."@ + decimal(layer) + ".encoder.key"@,
        tensor_name(prefix, 4 * layer + 3) == prefix + "."@ + decimal(layer) + ".encoder.value"@,
{
    assert((4 * layer) / 4 == layer && (4 * layer) % 4 == 0);
    assert((4 * layer + 1) / 4 == layer && (4 * layer + 1) % 4 == 1);
    assert((4 * layer + 2) / 4 == layer && (4 * layer + 2) % 4 == 2);
    assert((4 * layer + 3) / 4 == layer && (4 * layer + 3) % 4 == 3);
}

/// The random bits are the upper half of a linear step from the clock and the number of tokens,
/// without its highest bit.
pub proof fn lemma_random_bits(nanos: u64, len: u64)
    ensures
        ({
            let m = vstd::wrapping::u64_specs::wrapping_mul(nanos ^ len, 6364136223846793005);
            let y = vstd::wrapping::u64_specs::wrapping_add(m, 1442695040888963407);
            random_bits(nanos, len) == y / 0x2_0000_0000
        }),
{
    let m = vstd::wrapping::u64_specs::wrapping_mul(nanos ^ len, 6364136223846793005);
    let y = vstd::wrapping::u64_specs::wrapping_add(m, 1442695040888963407);
    assert(y >> 33 == y / 0x2_0000_0000) by (bit_vector);
    assert(random_bits(nanos, len) == y >> 33);
}

} // verus!
