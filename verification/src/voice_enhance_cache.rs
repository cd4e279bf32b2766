//! Cache of media with cleaned voices: the picture copied, the sound filtered.

use crate::args::{arg, arg2};
use crate::digest::{digest_text, text_digest};
use crate::cache_support::{cache_root, cache_root_dir};
use crate::paths::join_path;
use crate::sidecars::{
    all_rendered, is_asked, succeeded, OnDisk, SidecarAnswer, SidecarCache, SidecarResult,
    SidecarView,
};
use crate::text::{decimal, fixed_digits, option_view, owned, push_decimal, push_fixed, views};
use vstd::prelude::*;
use vstd::string::*;

verus! {

/// The most bytes that the cache may take up.
pub const MAX_CACHE_BYTES: u64 = 2_147_483_648;

/// The strength in hundredths, from 0 to 100.
pub open spec fn strength_of(hundredths: u32) -> nat {
    if hundredths > 100 {
        100
    } else {
        hundredths as nat
    }
}

/// The key of a source at a strength in hundredths: the digest of its path, and the strength.
pub open spec fn voice_key(source: Seq<char>, hundredths: u32) -> Seq<char> {
    "ve_"@ + decimal(text_digest(source) as nat) + "_"@ + fixed_digits(
        strength_of(hundredths),
        10,
        3,
    )
}

/// The key of a source at a strength in hundredths.
pub fn cache_key(source_path: &str, hundredths: u32) -> (r: String)
    ensures
        r@ == voice_key(source_path@, hundredths),
{
    let mut r = owned("ve_");
    push_decimal(&mut r, digest_text(source_path));
    r.append("_");
    push_fixed(
        &mut r,
        if hundredths > 100 {
            100
        } else {
            hundredths as u64
        },
        10,
        3,
    );
    r
}

/// The directory of the cache.
pub open spec fn voice_root(cache_home: Option<Seq<char>>, home: Option<Seq<char>>) -> Seq<char> {
    cache_root("voice_enhance"@, cache_home, home)
}

/// The directory of the cache, from the environment.
pub fn voice_enhance_root(cache_home: &Option<String>, home: &Option<String>) -> (r: String)
    ensures
        r@ == voice_root(option_view(*cache_home), option_view(*home)),
{
    cache_root_dir("voice_enhance", cache_home, home)
}

/// The command line that copies the picture and filters the sound.
pub fn voice_enhance_args(source_path: &str, output_path: &str, filter: &str) -> (r: Vec<String>)
    ensures
        views(r@) == seq![
            "-y"@,
            "-loglevel"@,
            "warning"@,
            "-i"@,
            source_path@,
            "-map"@,
            "0:v?"@,
            "-map"@,
            "0:a?"@,
            "-c:v"@,
            "copy"@,
            "-af"@,
            filter@,
            "-c:a"@,
            "aac"@,
            "-b:a"@,
            "192k"@,
            "-movflags"@,
            "+faststart"@,
            output_path@,
        ],
{
    let mut r: Vec<String> = Vec::new();
    arg(&mut r, "-y");
    arg2(&mut r, "-loglevel", "warning");
    arg2(&mut r, "-i", source_path);
    arg2(&mut r, "-map", "0:v?");
    arg2(&mut r, "-map", "0:a?");
    arg2(&mut r, "-c:v", "copy");
    arg2(&mut r, "-af", filter);
    arg2(&mut r, "-c:a", "aac");
    arg2(&mut r, "-b:a", "192k");
    arg2(&mut r, "-movflags", "+faststart");
    arg(&mut r, output_path);
    proof {
        assert(views(r@) =~= seq![
            "-y"@,
            "-loglevel"@,
            "warning"@,
            "-i"@,
            source_path@,
            "-map"@,
            "0:v?"@,
            "-map"@,
            "0:a?"@,
            "-c:v"@,
            "copy"@,
            "-af"@,
            filter@,
            "-c:a"@,
            "aac"@,
            "-b:a"@,
            "192k"@,
            "-movflags"@,
            "+faststart"@,
            output_path@,
        ]);
    }
    r
}

/// The numbers of the sound filter as texts: noise reduction, low and high equaliser, ratio and
/// gain of the compressor.
#[derive(Debug)]
pub struct VoiceFilterNumbers {
    pub noise_db: String,
    pub mud_gain: String,
    pub presence_gain: String,
    pub ratio: String,
    pub makeup: String,
}

/// The sound filter: a high pass, noise reduction, two equalisers, a compressor.
pub fn build_voice_enhance_filter_string(n: &VoiceFilterNumbers) -> (r: String)
    ensures
        r@ == "highpass=f=80,afftdn=nr="@ + n.noise_db@
            + ":nf=-25,equalizer=f=300:t=q:w=1.0:g="@ + n.mud_gain@
            + ",equalizer=f=4000:t=q:w=1.5:g="@ + n.presence_gain@
            + ",acompressor=threshold=0.05:ratio="@ + n.ratio@ + ":attack=20:release=250:makeup="@
            + n.makeup@,
{
    let mut r = owned("highpass=f=80,afftdn=nr=");
    r.append(&n.noise_db);
    r.append(":nf=-25,equalizer=f=300:t=q:w=1.0:g=");
    r.append(&n.mud_gain);
    r.append(",equalizer=f=4000:t=q:w=1.5:g=");
    r.append(&n.presence_gain);
    r.append(",acompressor=threshold=0.05:ratio=");
    r.append(&n.ratio);
    r.append(":attack=20:release=250:makeup=");
    r.append(&n.makeup);
    r
}

/// How far the renderings have come.
#[derive(Debug, Clone, Copy, PartialEq, Eq, Structural)]
pub struct VoiceEnhanceProgress {
    pub total: usize,
    pub completed: usize,
    pub in_flight: bool,
}

/// A rendering that has to be made.
#[derive(Debug)]
pub struct VoiceEnhanceJob {
    pub cache_key: String,
    pub source_path: String,
    pub output_path: String,
    pub hundredths: u32,
    pub remove_stale: bool,
}

/// What asking for a cleaned source asks of the caller.
#[derive(Debug)]
pub enum VoiceEnhanceAnswer {
    Nothing,
    Touch { path: String },
    Render(VoiceEnhanceJob),
}

/// The cleaned sources.
pub struct VoiceEnhanceCache {
    pub sidecars: SidecarCache,
}

impl VoiceEnhanceCache {
    pub open spec fn view(&self) -> SidecarView {
        self.sidecars@
    }

    pub open spec fn wf(&self) -> bool {
        self.sidecars.wf()
    }

    /// An empty cache over a directory.
    pub fn new(cache_root: String) -> (r: VoiceEnhanceCache)
        ensures
            r.wf(),
            r.sidecars.cache_root == cache_root,
            r@ == (SidecarView {
                paths: Map::empty(),
                pending: Set::empty(),
                failed: Set::empty(),
                total: 0,
            }),
    {
        VoiceEnhanceCache { sidecars: SidecarCache::new(cache_root) }
    }

    /// The file of a key.
    pub fn output_path_for_key(&self, key: &str) -> (r: String)
        ensures
            r@ == join_path(self.sidecars.cache_root@, key@ + ".mp4"@),
    {
        self.sidecars.output_path(key, ".mp4")
    }

    /// Asks for a source at a strength in hundredths. `disk` tells what lies at its file.
    pub fn request(&mut self, source_path: &str, hundredths: u32, disk: OnDisk) -> (r:
        VoiceEnhanceAnswer)
        requires
            old(self).wf(),
            old(self).sidecars.total_requested < usize::MAX,
        ensures
            final(self).wf(),
            final(self).sidecars.cache_root == old(self).sidecars.cache_root,
            ({
                let key = voice_key(source_path@, hundredths);
                let path = join_path(old(self).sidecars.cache_root@, key + ".mp4"@);
                exists|a: SidecarAnswer| #[trigger]
                    is_asked(old(self)@, final(self)@, key, path, disk, a) && (match r {
                        VoiceEnhanceAnswer::Nothing => a is Nothing,
                        VoiceEnhanceAnswer::Touch { path: p } => a
                            == (SidecarAnswer::Touch { path: p }),
                        VoiceEnhanceAnswer::Render(j) => {
                            &&& a == (SidecarAnswer::Render { remove_stale: j.remove_stale })
                            &&& j.cache_key@ == key
                            &&& j.source_path@ == source_path@
                            &&& j.output_path@ == path
                            &&& j.hundredths == hundredths
                        },
                    })
            }),
    {
        let key = cache_key(source_path, hundredths);
        let output_path = self.output_path_for_key(&key);
        let ghost s = self@;
        let a = self.sidecars.ask(&key, &output_path, disk);
        proof {
            assert(is_asked(s, self@, key@, output_path@, disk, a));
        }
        match a {
            SidecarAnswer::Nothing => VoiceEnhanceAnswer::Nothing,
            SidecarAnswer::Touch { path } => VoiceEnhanceAnswer::Touch { path },
            SidecarAnswer::Render { remove_stale } => VoiceEnhanceAnswer::Render(
                VoiceEnhanceJob {
                    cache_key: key,
                    source_path: owned(source_path),
                    output_path,
                    hundredths,
                    remove_stale,
                },
            ),
        }
    }

    /// Takes in renderings that came back. Returns the keys that became ready.
    pub fn poll(&mut self, done: Vec<SidecarResult>) -> (r: Vec<String>)
        requires
            old(self).wf(),
        ensures
            final(self).wf(),
            final(self).sidecars.cache_root == old(self).sidecars.cache_root,
            final(self)@ == all_rendered(old(self)@, done@),
            views(r@) == succeeded(done@),
    {
        self.sidecars.poll(done)
    }

    /// How far the renderings have come.
    pub fn progress(&self) -> (r: VoiceEnhanceProgress)
        requires
            self.wf(),
        ensures
            r.total == self.sidecars.total_requested,
            r.completed == self.sidecars.paths.names().len(),
            r.in_flight == (self@.pending != Set::<Seq<char>>::empty()),
    {
        let p = self.sidecars.progress();
        VoiceEnhanceProgress { total: p.total, completed: p.completed, in_flight: p.in_flight }
    }

    /// Forgets what is ready and what failed.
    pub fn invalidate_all(&mut self)
        requires
            old(self).wf(),
        ensures
            final(self).wf(),
            final(self).sidecars.cache_root == old(self).sidecars.cache_root,
            final(self)@ == (SidecarView {
                paths: Map::empty(),
                failed: Set::empty(),
                total: 0,
                ..old(self)@
            }),
    {
        self.sidecars.invalidate_all();
    }

    /// The cleaned file of a source at a strength in hundredths, if it is ready.
    pub fn get_path(&self, source_path: &str, hundredths: u32) -> (r: Option<&String>)
        requires
            self.wf(),
        ensures
            ({
                let key = voice_key(source_path@, hundredths);
                match r {
                    Some(p) => self@.paths.dom().contains(key) && self@.paths[key] == p@,
                    None => !self@.paths.dom().contains(key),
                }
            }),
    {
        self.sidecars.get(&cache_key(source_path, hundredths))
    }
}

/// Enhancements of different strength have different keys, up to the greatest strength.
pub proof fn lemma_strengths_told_apart(source: Seq<char>, a: u32, b: u32)
    requires
        voice_key(source, a) == voice_key(source, b),
    ensures
        strength_of(a) == strength_of(b),
        a <= 100 && b <= 100 ==> a == b,
{
    let x = fixed_digits(strength_of(a), 10, 3);
    let y = fixed_digits(strength_of(b), 10, 3);
    let head = "ve_"@ + decimal(text_digest(source) as nat) + "_"@;
    let s = voice_key(source, a);
    let t = voice_key(source, b);
    crate::text_shapes::lemma_fixed_digits(strength_of(a), 10, 3);
    crate::text_shapes::lemma_fixed_digits(strength_of(b), 10, 3);
    assert(x =~= s.subrange(head.len() as int, s.len() as int));
    assert(y =~= t.subrange(head.len() as int, t.len() as int));
    lemma_fixed_told_apart(strength_of(a), strength_of(b), 3);
}

proof fn lemma_fixed_told_apart(a: nat, b: nat, width: nat)
    requires
        fixed_digits(a, 10, width) == fixed_digits(b, 10, width),
        width <= 3,
        width == 3 ==> a < 1000 && b < 1000,
        width == 2 ==> a < 100 && b < 100,
        width == 1 ==> a < 10 && b < 10,
        width == 0 ==> a == 0 && b == 0,
    ensures
        a == b,
    decreases width,
{
    if width > 0 {
        let x = fixed_digits(a, 10, width);
        let y = fixed_digits(b, 10, width);
        crate::text_shapes::lemma_fixed_digits(a, 10, width);
        crate::text_shapes::lemma_fixed_digits(b, 10, width);
        crate::text_shapes::lemma_digit_char(a % 10);
        crate::text_shapes::lemma_digit_char(b % 10);
        assert(x.last() == y.last());
        assert(x.drop_last() == y.drop_last());
        lemma_fixed_told_apart(a / 10, b / 10, (width - 1) as nat);
    }
}

} // verus!
