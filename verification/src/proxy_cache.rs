//! Cache of proxies: which are ready, wanted or failed, and what is cleaned up.
//!
//! Proxies are asked for by source, LUT, stabilisation and scale. A job is handed out for each that
//! is not known yet; what came of it is handed back and taken in by `poll`. Proxy files lie either
//! in the managed cache directory or in an `UltimateSlice.cache` directory beside their source.

use crate::keyed::{text_map, without_values, StringMap, StringSet};
use crate::paths::{is_within, within};
use crate::pieces::{cut_at_first, cut_first};
use crate::proxy_files::capped_sum;
use crate::proxy_names::{
    chars_in, is_beside_source, is_sidecar_proxy_path, key_of, placed, plain_key, proxy_key,
    proxy_key_with_codec_and_vidstab, sidecar_dir, sidecar_proxy_dir_for, variant_name, ProxyCodec,
    ProxyScale, ProxyVariantSpec, Smoothing,
};
use crate::proxy_transcode::{Aftermath, HwEncoderFamily};
use crate::scaled::{kept_slots, slot_of, slot_place, slot_texts, ScaledMap, Slot};
use crate::digest::text_digest;
use crate::text::{
    chars_of, clone_all, distinct, join, joined, lemma_first_of_is, lemma_join_split, option_view, owned,
    same, split, split_on, string_of, views, without_repeats,
};
use vstd::prelude::*;

verus! {

/// The result of a transcode.
#[derive(Debug)]
pub struct ProxyResult {
    pub cache_key: String,
    pub scale: ProxyScale,
    pub proxy_path: String,
    pub success: bool,
    /// Whether the proxy was made in the managed cache directory.
    pub owned_local: bool,
}

/// What workers report.
#[derive(Debug)]
pub enum ProxyWorkerUpdate {
    Progress { cache_key: String, scale: ProxyScale, written_bytes: u64, estimated_bytes: u64 },
    Done(ProxyResult),
}

/// How far the work has come. `bytes` tells the bytes written and estimated, where they have been
/// estimated.
#[derive(Clone, Copy, Debug, PartialEq, Eq)]
pub struct ProxyProgress {
    pub total: usize,
    pub completed: usize,
    pub in_flight: bool,
    pub bytes: Option<(u64, u64)>,
}

/// How many files a clean-up took away.
#[derive(Clone, Copy, Debug, PartialEq, Eq, Structural)]
pub struct ProxyCleanupSummary {
    pub removed_local: usize,
    pub removed_sidecar: usize,
}

/// A proxy that has to be made.
#[derive(Debug)]
pub struct ProxyJob {
    pub source_path: String,
    pub scale: ProxyScale,
    pub lut_paths: Vec<String>,
    pub sidecar_mirror: bool,
    pub vidstab_enabled: bool,
    pub vidstab_smoothing: Smoothing,
    pub codec: ProxyCodec,
}

/// The LUT of a job: its paths with bars between them.
pub open spec fn job_lut(luts: Seq<Seq<char>>) -> Option<Seq<char>> {
    if luts.len() == 0 {
        None
    } else {
        Some(join(luts, "|"@))
    }
}

impl ProxyJob {
    /// The cache key of the proxy that the job makes.
    pub fn key(&self) -> (r: String)
        ensures
            r@ == key_of(
                self.source_path@,
                job_lut(views(self.lut_paths@)),
                self.codec,
                self.vidstab_enabled,
                self.vidstab_smoothing,
            ),
    {
        if self.lut_paths.len() == 0 {
            return proxy_key_with_codec_and_vidstab(
                &self.source_path,
                None,
                self.codec,
                self.vidstab_enabled,
                &self.vidstab_smoothing,
            );
        }
        let lut = joined(&self.lut_paths, "|");
        proof {
            assert(views(self.lut_paths@).len() == self.lut_paths@.len());
        }
        proxy_key_with_codec_and_vidstab(
            &self.source_path,
            Some(lut.as_str()),
            self.codec,
            self.vidstab_enabled,
            &self.vidstab_smoothing,
        )
    }
}

/// The paths in a LUT.
pub open spec fn lut_pieces(lut: Option<Seq<char>>) -> Seq<Seq<char>> {
    match lut {
        Some(l) => if l.len() > 0 {
            split(l, '|')
        } else {
            Seq::empty()
        },
        None => Seq::empty(),
    }
}

/// The key that a job computes is the one under which it was asked for.
pub proof fn lemma_job_key(
    source: Seq<char>,
    lut: Option<Seq<char>>,
    codec: ProxyCodec,
    enabled: bool,
    smoothing: Smoothing,
)
    ensures
        key_of(source, job_lut(lut_pieces(lut)), codec, enabled, smoothing) == key_of(
            source,
            lut,
            codec,
            enabled,
            smoothing,
        ),
{
    reveal_strlit("|");
    if let Some(l) = lut {
        if l.len() > 0 {
            lemma_join_split(l, '|');
            crate::text::lemma_split_len(l, '|');
            assert("|"@ =~= seq!['|']);
        }
    }
}

// ------------------------------------------------------------------- hardware
/// Hardware that has failed in this session.
pub struct HwFailures {
    pub sources: StringSet,
    pub decode_sources: StringSet,
    pub nvenc: bool,
    pub vaapi: bool,
    pub decoders: StringSet,
}

impl HwFailures {
    pub open spec fn wf(&self) -> bool {
        self.sources.wf() && self.decode_sources.wf() && self.decoders.wf()
    }

    /// Whether nothing has failed.
    pub open spec fn is_clear(&self) -> bool {
        &&& self.sources@ == Set::<Seq<char>>::empty()
        &&& self.decode_sources@ == Set::<Seq<char>>::empty()
        &&& !self.nvenc
        &&& !self.vaapi
        &&& self.decoders@ == Set::<Seq<char>>::empty()
    }

    /// Whether a family has failed.
    pub open spec fn has_family(&self, f: HwEncoderFamily) -> bool {
        match f {
            HwEncoderFamily::Nvenc => self.nvenc,
            HwEncoderFamily::Vaapi => self.vaapi,
        }
    }

    /// Nothing has failed.
    pub fn new() -> (r: HwFailures)
        ensures
            r.wf(),
            r.is_clear(),
    {
        HwFailures {
            sources: StringSet::new(),
            decode_sources: StringSet::new(),
            nvenc: false,
            vaapi: false,
            decoders: StringSet::new(),
        }
    }

    /// Which of the encoder families offered may be tried for a source.
    pub fn usable_encoder(&self, source_path: &str, picked: Option<HwEncoderFamily>) -> (r: Option<
        HwEncoderFamily,
    >)
        requires
            self.wf(),
        ensures
            r == (match picked {
                Some(f) => if self.sources@.contains(source_path@) || self.has_family(f) {
                    None
                } else {
                    picked
                },
                None => None,
            }),
    {
        match picked {
            Some(f) => {
                let failed: bool = match f {
                    HwEncoderFamily::Nvenc => self.nvenc,
                    HwEncoderFamily::Vaapi => self.vaapi,
                };
                if failed || self.sources.contains(source_path) {
                    None
                } else {
                    picked
                }
            },
            None => None,
        }
    }

    /// Whether the decoder offered may be tried for a source.
    pub fn usable_decoder(&self, source_path: &str, picked: Option<String>) -> (r: Option<String>)
        requires
            self.wf(),
        ensures
            r == (match picked {
                Some(m) => if self.decode_sources@.contains(source_path@) || self.decoders@.contains(
                    m@,
                ) {
                    None
                } else {
                    picked
                },
                None => None,
            }),
    {
        match picked {
            Some(m) => if self.decode_sources.contains(source_path) || self.decoders.contains(&m) {
                None
            } else {
                Some(m)
            },
            None => None,
        }
    }

    /// Notes that an encoder failed for a source.
    pub fn note_encoder(&mut self, source_path: &str, family: HwEncoderFamily)
        requires
            old(self).wf(),
        ensures
            final(self).wf(),
            final(self).sources@ == old(self).sources@.insert(source_path@),
            final(self).nvenc == (old(self).nvenc || family == HwEncoderFamily::Nvenc),
            final(self).vaapi == (old(self).vaapi || family == HwEncoderFamily::Vaapi),
            final(self).decode_sources == old(self).decode_sources,
            final(self).decoders == old(self).decoders,
    {
        self.sources.insert(owned(source_path));
        match family {
            HwEncoderFamily::Nvenc => {
                self.nvenc = true;
            },
            HwEncoderFamily::Vaapi => {
                self.vaapi = true;
            },
        }
    }

    /// Notes that a decoder failed for a source.
    pub fn note_decoder(&mut self, source_path: &str, method: &str)
        requires
            old(self).wf(),
        ensures
            final(self).wf(),
            final(self).decode_sources@ == old(self).decode_sources@.insert(source_path@),
            final(self).decoders@ == old(self).decoders@.insert(method@),
            final(self).sources == old(self).sources,
            final(self).nvenc == old(self).nvenc,
            final(self).vaapi == old(self).vaapi,
    {
        self.decode_sources.insert(owned(source_path));
        self.decoders.insert(owned(method));
    }

    /// Notes the hardware that a step of a transcode showed to have failed for a source.
    pub fn note(&mut self, source_path: &str, aftermath: &Aftermath)
        requires
            old(self).wf(),
        ensures
            final(self).wf(),
            final(self).sources@ == (if aftermath.failed_encoder is Some {
                old(self).sources@.insert(source_path@)
            } else {
                old(self).sources@
            }),
            final(self).nvenc == (old(self).nvenc || aftermath.failed_encoder == Some(
                HwEncoderFamily::Nvenc,
            )),
            final(self).vaapi == (old(self).vaapi || aftermath.failed_encoder == Some(
                HwEncoderFamily::Vaapi,
            )),
            final(self).decode_sources@ == (if aftermath.failed_decoder is Some {
                old(self).decode_sources@.insert(source_path@)
            } else {
                old(self).decode_sources@
            }),
            final(self).decoders@ == (match aftermath.failed_decoder {
                Some(m) => old(self).decoders@.insert(m@),
                None => old(self).decoders@,
            }),
    {
        if let Some(family) = aftermath.failed_encoder {
            self.note_encoder(source_path, family);
        }
        if let Some(method) = &aftermath.failed_decoder {
            self.note_decoder(source_path, method);
        }
    }
}

/// Which hardware encoders the user lets the program try.
#[derive(Clone, Copy, Debug, PartialEq, Eq, Structural)]
pub enum HwEncoderMode {
    Auto,
    Off,
    Nvenc,
    Vaapi,
}

// ---------------------------------------------------------------------- cache
/// The proxies of a session.
pub struct ProxyCache {
    /// The proxy file of each key that became ready last, of whatever scale.
    pub proxies: StringMap<String>,
    /// Proxy files by key and scale.
    pub ready: ScaledMap<String>,
    /// Keys and scales that are queued or in work.
    pub pending: ScaledMap<()>,
    /// Keys and scales that failed; these are not tried again.
    pub failed: ScaledMap<()>,
    /// The number of jobs that were handed out.
    pub total_requested: usize,
    pub estimated_bytes: ScaledMap<u64>,
    pub written_bytes: ScaledMap<u64>,
    pub local_cache_root: String,
    /// Files in the managed directory that this session made.
    pub runtime_owned_local_files: StringSet,
    pub sidecar_mirror_enabled: bool,
    pub hw_encoder_mode: HwEncoderMode,
    pub proxy_codec: ProxyCodec,
    pub hw: HwFailures,
}

/// What a cache knows.
pub struct ProxyView {
    pub proxies: Map<Seq<char>, Seq<char>>,
    pub ready: Map<Slot, Seq<char>>,
    pub pending: Set<Slot>,
    pub failed: Set<Slot>,
    pub total: nat,
    pub estimated: Map<Slot, u64>,
    pub written: Map<Slot, u64>,
    pub owned: Set<Seq<char>>,
}

/// Whether the proxy of a key and scale is ready, wanted or failed.
pub open spec fn is_known(s: ProxyView, slot: Slot) -> bool {
    s.ready.dom().contains(slot) || s.pending.contains(slot) || s.failed.contains(slot)
}

/// What is known after a report.
pub open spec fn reported(s: ProxyView, u: ProxyWorkerUpdate) -> ProxyView {
    match u {
        ProxyWorkerUpdate::Progress { cache_key, scale, written_bytes, estimated_bytes } => ProxyView {
            written: s.written.insert((cache_key@, scale), written_bytes),
            estimated: if estimated_bytes > 0 {
                s.estimated.insert((cache_key@, scale), estimated_bytes)
            } else {
                s.estimated
            },
            ..s
        },
        ProxyWorkerUpdate::Done(r) => {
            let slot = (r.cache_key@, r.scale);
            if r.success {
                ProxyView {
                    pending: s.pending.remove(slot),
                    proxies: s.proxies.insert(r.cache_key@, r.proxy_path@),
                    ready: s.ready.insert(slot, r.proxy_path@),
                    written: if s.estimated.dom().contains(slot) {
                        s.written.insert(slot, s.estimated[slot])
                    } else {
                        s.written
                    },
                    owned: if r.owned_local {
                        s.owned.insert(r.proxy_path@)
                    } else {
                        s.owned
                    },
                    ..s
                }
            } else {
                ProxyView {
                    pending: s.pending.remove(slot),
                    failed: s.failed.insert(slot),
                    estimated: s.estimated.remove(slot),
                    written: s.written.remove(slot),
                    ..s
                }
            }
        },
    }
}

/// What is known after several reports.
pub open spec fn all_reported(s: ProxyView, updates: Seq<ProxyWorkerUpdate>) -> ProxyView
    decreases updates.len(),
{
    if updates.len() == 0 {
        s
    } else {
        reported(all_reported(s, updates.drop_last()), updates.last())
    }
}

/// The keys that reports settle.
pub open spec fn settled(updates: Seq<ProxyWorkerUpdate>) -> Seq<Seq<char>>
    decreases updates.len(),
{
    if updates.len() == 0 {
        Seq::empty()
    } else {
        match updates.last() {
            ProxyWorkerUpdate::Done(r) => settled(updates.drop_last()).push(r.cache_key@),
            _ => settled(updates.drop_last()),
        }
    }
}

/// The files that reports add to the index of owned files.
pub open spec fn newly_owned(updates: Seq<ProxyWorkerUpdate>) -> Seq<Seq<char>>
    decreases updates.len(),
{
    if updates.len() == 0 {
        Seq::empty()
    } else {
        let front = newly_owned(updates.drop_last());
        match updates.last() {
            ProxyWorkerUpdate::Done(r) => if r.success && r.owned_local {
                front.push(r.proxy_path@)
            } else {
                front
            },
            _ => front,
        }
    }
}

/// The source in a key: what stands before its first bar.
pub open spec fn source_in(key: Seq<char>) -> Seq<char> {
    match cut_first(key, '|') {
        Some(c) => c.0,
        None => key,
    }
}

/// The first `n` estimates together.
pub open spec fn estimate_total(values: Seq<u64>, n: nat) -> nat
    decreases n,
{
    if n == 0 {
        0
    } else {
        capped_sum(estimate_total(values, (n - 1) as nat), values[n - 1] as nat)
    }
}

/// The bytes written of the first `n` that have estimates, each up to its estimate.
pub open spec fn written_total(
    names: Seq<Slot>,
    values: Seq<u64>,
    written: Map<Slot, u64>,
    n: nat,
) -> nat
    decreases n,
{
    if n == 0 {
        0
    } else {
        let w = if written.dom().contains(names[n - 1]) {
            written[names[n - 1]]
        } else {
            0
        };
        let part = if w < values[n - 1] {
            w
        } else {
            values[n - 1]
        };
        capped_sum(written_total(names, values, written, (n - 1) as nat), part as nat)
    }
}

/// Settled keys and newly owned files.
#[derive(Debug)]
pub struct PollOutcome {
    pub resolved: Vec<String>,
    pub owned_paths: Vec<String>,
}

impl ProxyCache {
    pub open spec fn view(&self) -> ProxyView {
        ProxyView {
            proxies: text_map(self.proxies@),
            ready: slot_texts(self.ready@),
            pending: self.pending@.dom(),
            failed: self.failed@.dom(),
            total: self.total_requested as nat,
            estimated: self.estimated_bytes@,
            written: self.written_bytes@,
            owned: self.runtime_owned_local_files@,
        }
    }

    /// Nothing is both pending and settled, and every key of a proxy that is ready has a file.
    pub open spec fn wf(&self) -> bool {
        &&& self.proxies.wf()
        &&& self.ready.wf()
        &&& self.pending.wf()
        &&& self.failed.wf()
        &&& self.estimated_bytes.wf()
        &&& self.written_bytes.wf()
        &&& self.runtime_owned_local_files.wf()
        &&& self.hw.wf()
        &&& self.pending@.dom().disjoint(self.ready@.dom())
        &&& self.pending@.dom().disjoint(self.failed@.dom())
        &&& forall|k: Slot| #[trigger]
            self.ready@.dom().contains(k) ==> self.proxies@.dom().contains(k.0)
    }

    /// Whether two caches have the same settings and hardware failures.
    pub open spec fn same_settings(&self, other: &ProxyCache) -> bool {
        &&& self.local_cache_root == other.local_cache_root
        &&& self.sidecar_mirror_enabled == other.sidecar_mirror_enabled
        &&& self.hw_encoder_mode == other.hw_encoder_mode
        &&& self.proxy_codec == other.proxy_codec
        &&& self.hw == other.hw
    }

    /// An empty cache over a managed directory.
    pub fn new(local_cache_root: String) -> (r: ProxyCache)
        ensures
            r.wf(),
            r@ == (ProxyView {
                proxies: Map::empty(),
                ready: Map::empty(),
                pending: Set::empty(),
                failed: Set::empty(),
                total: 0,
                estimated: Map::empty(),
                written: Map::empty(),
                owned: Set::empty(),
            }),
            r.local_cache_root == local_cache_root,
            !r.sidecar_mirror_enabled,
            r.hw_encoder_mode == HwEncoderMode::Auto,
            r.proxy_codec == ProxyCodec::H264,
            r.hw.is_clear(),
    {
        let r = ProxyCache {
            proxies: StringMap::new(),
            ready: ScaledMap::new(),
            pending: ScaledMap::new(),
            failed: ScaledMap::new(),
            total_requested: 0,
            estimated_bytes: ScaledMap::new(),
            written_bytes: ScaledMap::new(),
            local_cache_root,
            runtime_owned_local_files: StringSet::new(),
            sidecar_mirror_enabled: false,
            hw_encoder_mode: HwEncoderMode::Auto,
            proxy_codec: ProxyCodec::H264,
            hw: HwFailures::new(),
        };
        proof {
            assert(text_map(r.proxies@) =~= Map::<Seq<char>, Seq<char>>::empty());
            assert(slot_texts(r.ready@) =~= Map::<Slot, Seq<char>>::empty());
            assert(r.pending@.dom() =~= Set::<Slot>::empty());
            assert(r.failed@.dom() =~= Set::<Slot>::empty());
        }
        r
    }

    /// Sets the codec of proxies to come. What failed before may work with it.
    pub fn set_proxy_codec(&mut self, codec: ProxyCodec)
        requires
            old(self).wf(),
        ensures
            final(self).wf(),
            final(self)@ == old(self)@,
            final(self).proxy_codec == codec,
            final(self).hw.is_clear(),
            final(self).hw_encoder_mode == old(self).hw_encoder_mode,
            final(self).local_cache_root == old(self).local_cache_root,
            final(self).sidecar_mirror_enabled == old(self).sidecar_mirror_enabled,
    {
        self.proxy_codec = codec;
        self.hw = HwFailures::new();
    }

    /// Sets which hardware encoders are tried. What failed before may work with them.
    pub fn set_hw_encoder_mode(&mut self, mode: HwEncoderMode)
        requires
            old(self).wf(),
        ensures
            final(self).wf(),
            final(self)@ == old(self)@,
            final(self).hw_encoder_mode == mode,
            final(self).hw.is_clear(),
            final(self).proxy_codec == old(self).proxy_codec,
            final(self).local_cache_root == old(self).local_cache_root,
            final(self).sidecar_mirror_enabled == old(self).sidecar_mirror_enabled,
    {
        self.hw_encoder_mode = mode;
        self.hw = HwFailures::new();
    }

    /// Sets whether proxies are copied beside their sources too.
    pub fn set_sidecar_mirror_enabled(&mut self, enabled: bool)
        requires
            old(self).wf(),
        ensures
            final(self).wf(),
            final(self)@ == old(self)@,
            final(self).sidecar_mirror_enabled == enabled,
            final(self).local_cache_root == old(self).local_cache_root,
            final(self).hw_encoder_mode == old(self).hw_encoder_mode,
            final(self).proxy_codec == old(self).proxy_codec,
            final(self).hw == old(self).hw,
    {
        self.sidecar_mirror_enabled = enabled;
    }

    /// Asks for a proxy without stabilisation. Nothing happens where the proxy of this source, LUT
    /// and scale is ready, pending or failed.
    pub fn request(
        &mut self,
        source_path: &str,
        scale: ProxyScale,
        lut_path: Option<&str>,
        existing: Option<String>,
    ) -> (r: Option<ProxyJob>)
        requires
            old(self).wf(),
            old(self).total_requested < usize::MAX,
        ensures
            final(self).wf(),
            final(self).same_settings(old(self)),
            is_requested(
                old(self)@,
                final(self)@,
                (plain_key(source_path@, chars_in(lut_path), old(self).proxy_codec), scale),
                option_view(existing),
                r is Some,
            ),
            r matches Some(j) ==> {
                &&& j.source_path@ == source_path@
                &&& j.scale == scale
                &&& views(j.lut_paths@) == lut_pieces(chars_in(lut_path))
                &&& j.sidecar_mirror == old(self).sidecar_mirror_enabled
                &&& !j.vidstab_enabled
                &&& j.vidstab_smoothing.is_none()
                &&& j.codec == old(self).proxy_codec
            },
    {
        self.request_with_vidstab(
            source_path,
            scale,
            lut_path,
            false,
            Smoothing::none(),
            existing,
        )
    }

    /// Asks for a proxy. Nothing happens where it is ready, pending or failed at this scale. Where it
    /// was found on disk, as `existing` tells, it is ready at once, and otherwise there is a job to do.
    pub fn request_with_vidstab(
        &mut self,
        source_path: &str,
        scale: ProxyScale,
        lut_path: Option<&str>,
        vidstab_enabled: bool,
        vidstab_smoothing: Smoothing,
        existing: Option<String>,
    ) -> (r: Option<ProxyJob>)
        requires
            old(self).wf(),
            old(self).total_requested < usize::MAX,
        ensures
            final(self).wf(),
            final(self).same_settings(old(self)),
            is_requested(
                old(self)@,
                final(self)@,
                (
                    key_of(
                        source_path@,
                        chars_in(lut_path),
                        old(self).proxy_codec,
                        vidstab_enabled,
                        vidstab_smoothing,
                    ),
                    scale,
                ),
                option_view(existing),
                r is Some,
            ),
            r matches Some(j) ==> {
                &&& j.source_path@ == source_path@
                &&& j.scale == scale
                &&& views(j.lut_paths@) == lut_pieces(chars_in(lut_path))
                &&& j.sidecar_mirror == old(self).sidecar_mirror_enabled
                &&& j.vidstab_enabled == vidstab_enabled
                &&& j.vidstab_smoothing == vidstab_smoothing
                &&& j.codec == old(self).proxy_codec
            },
    {
        let key = proxy_key_with_codec_and_vidstab(
            source_path,
            lut_path,
            self.proxy_codec,
            vidstab_enabled,
            &vidstab_smoothing,
        );
        let ghost before = self@;
        let ghost k = key@;
        if self.ready.contains_key(&key, scale) || self.pending.contains_key(&key, scale)
            || self.failed.contains_key(&key, scale) {
            return None;
        }
        if let Some(p) = existing {
            self.ready.insert(key.clone(), scale, p.clone());
            self.proxies.insert(key, p);
            proof {
                assert(text_map(self.proxies@) =~= before.proxies.insert(k, p@));
                assert(slot_texts(self.ready@) =~= before.ready.insert((k, scale), p@));
            }
            return None;
        }
        self.pending.insert(key.clone(), scale, ());
        proof {
            assert(self.pending@.dom() =~= before.pending.insert((k, scale)));
        }
        self.total_requested = self.total_requested + 1;
        self.written_bytes.insert(key, scale, 0);
        let mut lut_paths: Vec<String> = Vec::new();
        if let Some(lut) = lut_path {
            if !lut.is_empty() {
                lut_paths = split_on(lut, '|');
            }
        }
        proof {
            assert(views(lut_paths@) =~= lut_pieces(chars_in(lut_path)));
        }
        Some(
            ProxyJob {
                source_path: owned(source_path),
                scale,
                lut_paths,
                sidecar_mirror: self.sidecar_mirror_enabled,
                vidstab_enabled,
                vidstab_smoothing,
                codec: self.proxy_codec,
            },
        )
    }

    fn absorb(&mut self, u: ProxyWorkerUpdate, out: &mut PollOutcome)
        requires
            old(self).wf(),
        ensures
            final(self).wf(),
            final(self).same_settings(old(self)),
            final(self)@ == reported(old(self)@, u),
            views(final(out).resolved@) == (match u {
                ProxyWorkerUpdate::Done(r) => views(old(out).resolved@).push(r.cache_key@),
                _ => views(old(out).resolved@),
            }),
            views(final(out).owned_paths@) == (match u {
                ProxyWorkerUpdate::Done(r) => if r.success && r.owned_local {
                    views(old(out).owned_paths@).push(r.proxy_path@)
                } else {
                    views(old(out).owned_paths@)
                },
                _ => views(old(out).owned_paths@),
            }),
    {
        let ghost before = self@;
        let ghost res0 = out.resolved@;
        let ghost own0 = out.owned_paths@;
        match u {
            ProxyWorkerUpdate::Progress { cache_key, scale, written_bytes, estimated_bytes } => {
                self.written_bytes.insert(cache_key.clone(), scale, written_bytes);
                if estimated_bytes > 0 {
                    self.estimated_bytes.insert(cache_key, scale, estimated_bytes);
                }
            },
            ProxyWorkerUpdate::Done(result) => {
                let scale = result.scale;
                let ghost slot: Slot = (result.cache_key@, scale);
                self.pending.remove(&result.cache_key, scale);
                proof {
                    assert(self.pending@.dom() =~= before.pending.remove(slot));
                }
                if result.success {
                    self.proxies.insert(result.cache_key.clone(), result.proxy_path.clone());
                    self.ready.insert(result.cache_key.clone(), scale, result.proxy_path.clone());
                    proof {
                        assert(slot_texts(self.ready@) =~= before.ready.insert(
                            slot,
                            result.proxy_path@,
                        ));
                        assert(text_map(self.proxies@) =~= before.proxies.insert(
                            result.cache_key@,
                            result.proxy_path@,
                        ));
                    }
                    let estimate: Option<u64> = match self.estimated_bytes.get(&result.cache_key, scale) {
                        Some(e) => Some(*e),
                        None => None,
                    };
                    if let Some(e) = estimate {
                        self.written_bytes.insert(result.cache_key.clone(), scale, e);
                    }
                    if result.owned_local {
                        self.runtime_owned_local_files.insert(result.proxy_path.clone());
                        out.owned_paths.push(result.proxy_path);
                        proof {
                            assert(views(out.owned_paths@) =~= views(own0).push(
                                result.proxy_path@,
                            ));
                        }
                    }
                } else {
                    self.failed.insert(result.cache_key.clone(), scale, ());
                    self.estimated_bytes.remove(&result.cache_key, scale);
                    self.written_bytes.remove(&result.cache_key, scale);
                    proof {
                        assert(self.failed@.dom() =~= before.failed.insert(slot));
                    }
                }
                out.resolved.push(result.cache_key);
                proof {
                    assert(views(out.resolved@) =~= views(res0).push(result.cache_key@));
                }
            },
        }
    }

    /// Takes in what workers reported, in order. Returns the keys that are settled now, and the
    /// files for the index of owned files.
    pub fn poll(&mut self, updates: Vec<ProxyWorkerUpdate>) -> (r: PollOutcome)
        requires
            old(self).wf(),
        ensures
            final(self).wf(),
            final(self).same_settings(old(self)),
            final(self)@ == all_reported(old(self)@, updates@),
            views(r.resolved@) == settled(updates@),
            views(r.owned_paths@) == newly_owned(updates@),
    {
        let ghost all = updates@;
        let ghost start = *self;
        let mut rest = updates;
        let mut out = PollOutcome { resolved: Vec::new(), owned_paths: Vec::new() };
        let ghost mut n: int = 0;
        proof {
            assert(all.subrange(0, 0) =~= Seq::empty());
            assert(views(out.resolved@) =~= Seq::empty());
            assert(views(out.owned_paths@) =~= Seq::empty());
            assert(rest@ =~= all.subrange(0, all.len() as int));
        }
        while rest.len() > 0
            invariant
                self.wf(),
                self.same_settings(&start),
                0 <= n <= all.len(),
                rest@ == all.subrange(n, all.len() as int),
                self@ == all_reported(start@, all.subrange(0, n)),
                views(out.resolved@) == settled(all.subrange(0, n)),
                views(out.owned_paths@) == newly_owned(all.subrange(0, n)),
            decreases rest.len(),
        {
            let u = rest.remove(0);
            proof {
                let next = all.subrange(0, n + 1);
                assert(u == all[n]);
                assert(rest@ =~= all.subrange(n + 1, all.len() as int));
                assert(next.drop_last() =~= all.subrange(0, n));
                assert(next.last() == u);
            }
            self.absorb(u, &mut out);
            proof {
                n = n + 1;
            }
        }
        proof {
            assert(all.subrange(0, n) =~= all);
        }
        out
    }

    /// The proxy of a source with a LUT, in H.264 and without stabilisation, that became ready last.
    pub fn get(&self, source_path: &str, lut_path: Option<&str>) -> (r: Option<&String>)
        requires
            self.wf(),
        ensures
            ({
                let key = plain_key(source_path@, chars_in(lut_path), ProxyCodec::H264);
                match r {
                    Some(p) => self@.proxies.dom().contains(key) && self@.proxies[key] == p@,
                    None => !self@.proxies.dom().contains(key),
                }
            }),
    {
        self.proxies.get(&proxy_key(source_path, lut_path))
    }

    /// The sources that have a proxy ready.
    pub fn ready_source_paths(&self) -> (r: StringSet)
        requires
            self.wf(),
        ensures
            r.wf(),
            forall|p: Seq<char>| #[trigger]
                r@.contains(p) <==> exists|k: Seq<char>| #[trigger]
                    self@.proxies.dom().contains(k) && source_in(k) == p,
    {
        let mut r = StringSet::new();
        let mut i: usize = 0;
        while i < self.proxies.keys.len()
            invariant
                i <= self.proxies.keys@.len(),
                self.proxies.wf(),
                r.wf(),
                forall|p: Seq<char>| #[trigger]
                    r@.contains(p) <==> exists|j: int|
                        0 <= j < i && source_in(#[trigger] self.proxies.names()[j]) == p,
            decreases self.proxies.keys.len() - i,
        {
            let ghost before = r@;
            let key: Vec<char> = chars_of(&self.proxies.keys[i]);
            proof {
                assert(self.proxies.names()[i as int] == key@);
            }
            let source: String = match cut_at_first(&key, '|') {
                Some(c) => string_of(&c.0),
                None => self.proxies.keys[i].clone(),
            };
            r.insert(source);
            proof {
                assert forall|p: Seq<char>| #[trigger]
                    r@.contains(p) <==> exists|j: int|
                        0 <= j < i + 1 && source_in(#[trigger] self.proxies.names()[j]) == p by {
                    if before.contains(p) {
                        let j = choose|j: int|
                            0 <= j < i && source_in(#[trigger] self.proxies.names()[j]) == p;
                        assert(0 <= j < i + 1 && source_in(self.proxies.names()[j]) == p);
                    }
                    if exists|j: int|
                        0 <= j < i + 1 && source_in(#[trigger] self.proxies.names()[j]) == p {
                        let j = choose|j: int|
                            0 <= j < i + 1 && source_in(#[trigger] self.proxies.names()[j]) == p;
                        if j < i {
                            assert(before.contains(p));
                        }
                    }
                }
            }
            i = i + 1;
        }
        proof {
            assert forall|p: Seq<char>| #[trigger]
                r@.contains(p) <==> exists|k: Seq<char>| #[trigger]
                    self@.proxies.dom().contains(k) && source_in(k) == p by {
                if r@.contains(p) {
                    let j = choose|j: int|
                        0 <= j < i && source_in(#[trigger] self.proxies.names()[j]) == p;
                    self.proxies.lemma_at(j);
                    assert(self@.proxies.dom().contains(self.proxies.names()[j]));
                }
                if exists|k: Seq<char>| #[trigger]
                    self@.proxies.dom().contains(k) && source_in(k) == p {
                    let k = choose|k: Seq<char>| #[trigger]
                        self@.proxies.dom().contains(k) && source_in(k) == p;
                    let j = choose|j: int|
                        0 <= j < self.proxies.names().len() && self.proxies.names()[j] == k;
                    assert(source_in(self.proxies.names()[j]) == p);
                }
            }
        }
        r
    }

    /// Forgets everything but the files that this session owns. Files on disk stay.
    pub fn invalidate_all(&mut self)
        requires
            old(self).wf(),
        ensures
            final(self).wf(),
            final(self).same_settings(old(self)),
            final(self)@ == (ProxyView {
                proxies: Map::empty(),
                ready: Map::empty(),
                pending: Set::empty(),
                failed: Set::empty(),
                total: 0,
                estimated: Map::empty(),
                written: Map::empty(),
                owned: old(self)@.owned,
            }),
    {
        self.proxies.clear();
        self.ready.clear();
        self.pending.clear();
        self.failed.clear();
        self.total_requested = 0;
        self.estimated_bytes.clear();
        self.written_bytes.clear();
        proof {
            assert(text_map(self.proxies@) =~= Map::<Seq<char>, Seq<char>>::empty());
            assert(slot_texts(self.ready@) =~= Map::<Slot, Seq<char>>::empty());
            assert(self.pending@.dom() =~= Set::<Slot>::empty());
            assert(self.failed@.dom() =~= Set::<Slot>::empty());
        }
    }

    /// How far the work has come.
    pub fn progress(&self) -> (r: ProxyProgress)
        requires
            self.wf(),
        ensures
            r.total == self.total_requested,
            r.completed == (if self.ready.names().len() < self.total_requested {
                self.ready.names().len() as int
            } else {
                self.total_requested as int
            }),
            r.in_flight == (self@.pending != Set::<Slot>::empty()),
            ({
                let names = self.estimated_bytes.names();
                let values = self.estimated_bytes.values@;
                let est = estimate_total(values, values.len());
                match r.bytes {
                    Some(b) => est > 0 && b.1 == est && b.0 == written_total(
                        names,
                        values,
                        self.written_bytes@,
                        values.len(),
                    ),
                    None => est == 0,
                }
            }),
    {
        let completed: usize = self.ready.len();
        let mut written: u64 = 0;
        let mut estimated: u64 = 0;
        let mut i: usize = 0;
        while i < self.estimated_bytes.keys.len()
            invariant
                i <= self.estimated_bytes.keys@.len(),
                self.estimated_bytes.wf(),
                self.written_bytes.wf(),
                estimated == estimate_total(self.estimated_bytes.values@, i as nat),
                written == written_total(
                    self.estimated_bytes.names(),
                    self.estimated_bytes.values@,
                    self.written_bytes@,
                    i as nat,
                ),
            decreases self.estimated_bytes.keys.len() - i,
        {
            let est: u64 = self.estimated_bytes.values[i];
            let bytes: u64 = match self.written_bytes.get(
                &self.estimated_bytes.keys[i].0,
                self.estimated_bytes.keys[i].1,
            ) {
                Some(b) => *b,
                None => 0,
            };
            proof {
                assert(self.estimated_bytes.names()[i as int] == slot_of(
                    self.estimated_bytes.keys@[i as int],
                ));
            }
            let part: u64 = if bytes < est {
                bytes
            } else {
                est
            };
            estimated = if estimated > u64::MAX - est {
                u64::MAX
            } else {
                estimated + est
            };
            written = if written > u64::MAX - part {
                u64::MAX
            } else {
                written + part
            };
            i = i + 1;
        }
        ProxyProgress {
            total: self.total_requested,
            completed: if completed < self.total_requested {
                completed
            } else {
                self.total_requested
            },
            in_flight: !self.pending.is_empty(),
            bytes: if estimated > 0 {
                Some((written, estimated))
            } else {
                None
            },
        }
    }
}

/// What asking for the proxy of a key and scale does to what is known, and whether there is a job.
pub open spec fn is_requested(
    before: ProxyView,
    after: ProxyView,
    slot: Slot,
    existing: Option<Seq<char>>,
    job: bool,
) -> bool {
    if is_known(before, slot) {
        after == before && !job
    } else {
        match existing {
            Some(p) => after == (ProxyView {
                proxies: before.proxies.insert(slot.0, p),
                ready: before.ready.insert(slot, p),
                ..before
            }) && !job,
            None => job && after == (ProxyView {
                pending: before.pending.insert(slot),
                total: before.total + 1,
                written: before.written.insert(slot, 0),
                ..before
            }),
        }
    }
}

/// Asking for one proxy leaves it open whether that of another source, LUT or scale is known.
pub proof fn lemma_other_slots_stay_open(
    before: ProxyView,
    after: ProxyView,
    slot: Slot,
    existing: Option<Seq<char>>,
    job: bool,
    other: Slot,
)
    requires
        is_requested(before, after, slot, existing, job),
        other != slot,
    ensures
        is_known(after, other) == is_known(before, other),
{
}

/// The source of a key is the path it was made for, where that holds no bar.
pub proof fn lemma_source_in_key(
    source: Seq<char>,
    lut: Option<Seq<char>>,
    codec: ProxyCodec,
    enabled: bool,
    smoothing: Smoothing,
)
    requires
        !source.contains('|'),
    ensures
        source_in(key_of(source, lut, codec, enabled, smoothing)) == source,
{
    reveal_strlit("|lut:");
    reveal_strlit("|vs:");
    reveal_strlit("|c:hevc");
    let key = key_of(source, lut, codec, enabled, smoothing);
    let n = source.len() as int;
    assert(key.subrange(0, n) =~= source);
    assert forall|k: int| 0 <= k < n implies key[k] != '|' by {
        assert(key[k] == source[k]);
    }
    if key.len() > n {
        assert(key[n] == '|');
    }
    lemma_first_of_is(key, '|', n);
}

/// What there was a job for stays known, whatever workers report: it is asked for once.
pub proof fn lemma_job_stays_known(s: ProxyView, updates: Seq<ProxyWorkerUpdate>, slot: Slot)
    requires
        is_known(s, slot),
    ensures
        is_known(all_reported(s, updates), slot),
    decreases updates.len(),
{
    if updates.len() > 0 {
        lemma_job_stays_known(s, updates.drop_last(), slot);
    }
}

// ------------------------------------------------------------------- clean-up
/// Whether a file is a proxy that is ready.
pub open spec fn is_ready_file(s: ProxyView, path: Seq<char>) -> bool {
    ||| exists|k: Seq<char>| #[trigger] s.proxies.dom().contains(k) && s.proxies[k] == path
    ||| exists|k: Slot| #[trigger] s.ready.dom().contains(k) && s.ready[k] == path
}

/// What is known once files are gone. Of a key that has no file left, no scale is ready.
pub open spec fn forgotten(s: ProxyView, removed: Set<Seq<char>>) -> ProxyView {
    let proxies = without_values(s.proxies, removed);
    ProxyView { proxies, ready: kept_slots(s.ready, proxies.dom(), removed), ..s }
}

/// Whether a file is taken away from the managed directory when a project is closed.
pub open spec fn is_local_leftover(s: ProxyView, root: Seq<char>, path: Seq<char>) -> bool {
    is_within(path, root) && (is_ready_file(s, path) || s.owned.contains(path))
}

/// Whether a file is taken away beside its source when a project is closed.
pub open spec fn is_sidecar_leftover(s: ProxyView, path: Seq<char>) -> bool {
    is_beside_source(path) && is_ready_file(s, path)
}

/// What a wanted proxy is called in the managed directory.
pub open spec fn wanted_local(specs: Seq<ProxyVariantSpec>, root: Seq<char>) -> Seq<Seq<char>>
    decreases specs.len(),
{
    if specs.len() == 0 {
        Seq::empty()
    } else {
        let front = wanted_local(specs.drop_last(), root);
        match placed(Some(root), variant_name(specs.last()@)) {
            Some(p) => front.push(p),
            None => front,
        }
    }
}

/// What a wanted proxy is called beside its source.
pub open spec fn wanted_sidecar(specs: Seq<ProxyVariantSpec>) -> Seq<Seq<char>>
    decreases specs.len(),
{
    if specs.len() == 0 {
        Seq::empty()
    } else {
        let front = wanted_sidecar(specs.drop_last());
        match placed(sidecar_dir(specs.last().source_path@), variant_name(specs.last()@)) {
            Some(p) => front.push(p),
            None => front,
        }
    }
}

/// The digests of the sources of wanted proxies.
pub open spec fn wanted_digests(specs: Seq<ProxyVariantSpec>) -> Seq<u64> {
    specs.map_values(|s: ProxyVariantSpec| text_digest(s.source_path@))
}

/// The cache directories beside the sources of wanted proxies.
pub open spec fn wanted_dirs(specs: Seq<ProxyVariantSpec>) -> Seq<Seq<char>>
    decreases specs.len(),
{
    if specs.len() == 0 {
        Seq::empty()
    } else {
        let front = wanted_dirs(specs.drop_last());
        match sidecar_dir(specs.last().source_path@) {
            Some(d) => front.push(d),
            None => front,
        }
    }
}

/// The digests of the sources of wanted proxies whose cache directory is `dir`.
pub open spec fn digests_at(specs: Seq<ProxyVariantSpec>, dir: Seq<char>) -> Seq<u64>
    decreases specs.len(),
{
    if specs.len() == 0 {
        Seq::empty()
    } else {
        let front = digests_at(specs.drop_last(), dir);
        if sidecar_dir(specs.last().source_path@) == Some(dir) {
            front.push(text_digest(specs.last().source_path@))
        } else {
            front
        }
    }
}

/// What a clean-up of variants looks at: the wanted paths, and for each directory the digests of
/// the sources whose files it may take away.
pub struct CleanupPlan {
    pub desired_local: Vec<String>,
    pub desired_sidecar: Vec<String>,
    pub local_digests: Vec<u64>,
    pub sidecar_dirs: Vec<String>,
    pub sidecar_digests: Vec<Vec<u64>>,
}

fn digests_for_dir(specs: &Vec<ProxyVariantSpec>, dir: &str) -> (r: Vec<u64>)
    ensures
        r@ == digests_at(specs@, dir@),
{
    let mut r: Vec<u64> = Vec::new();
    let mut i: usize = 0;
    proof {
        assert(specs@.subrange(0, 0) =~= Seq::empty());
        assert(r@ =~= Seq::empty());
    }
    while i < specs.len()
        invariant
            i <= specs@.len(),
            r@ == digests_at(specs@.subrange(0, i as int), dir@),
        decreases specs.len() - i,
    {
        proof {
            let next = specs@.subrange(0, i + 1);
            assert(next.drop_last() =~= specs@.subrange(0, i as int));
            assert(next.last() == specs@[i as int]);
        }
        if let Some(d) = sidecar_proxy_dir_for(&specs[i].source_path) {
            if same(&d, dir) {
                r.push(specs[i].source_hash());
            }
        }
        i = i + 1;
    }
    proof {
        assert(specs@.subrange(0, i as int) =~= specs@);
    }
    r
}

/// What a clean-up of variants looks at. Nothing is cleaned up where nothing is wanted.
pub fn plan_stale_cleanup(desired_variants: &Vec<ProxyVariantSpec>, local_root: &str) -> (r: Option<
    CleanupPlan,
>)
    ensures
        desired_variants@.len() == 0 <==> r is None,
        r matches Some(p) ==> {
            &&& views(p.desired_local@) == wanted_local(desired_variants@, local_root@)
            &&& views(p.desired_sidecar@) == wanted_sidecar(desired_variants@)
            &&& p.local_digests@ == wanted_digests(desired_variants@)
            &&& views(p.sidecar_dirs@) == distinct(wanted_dirs(desired_variants@))
            &&& p.sidecar_digests@.len() == p.sidecar_dirs@.len()
            &&& forall|i: int|
                0 <= i < p.sidecar_dirs@.len() ==> (#[trigger] p.sidecar_digests@[i])@
                    == digests_at(desired_variants@, p.sidecar_dirs@[i]@)
        },
{
    if desired_variants.len() == 0 {
        return None;
    }
    let ghost specs = desired_variants@;
    let mut local: Vec<String> = Vec::new();
    let mut sidecar: Vec<String> = Vec::new();
    let mut digests: Vec<u64> = Vec::new();
    let mut dirs: Vec<String> = Vec::new();
    let mut i: usize = 0;
    proof {
        assert(specs.subrange(0, 0) =~= Seq::empty());
        assert(views(local@) =~= Seq::empty());
        assert(views(sidecar@) =~= Seq::empty());
        assert(views(dirs@) =~= Seq::empty());
        assert(digests@ =~= wanted_digests(specs.subrange(0, 0)));
    }
    while i < desired_variants.len()
        invariant
            i <= desired_variants@.len(),
            specs == desired_variants@,
            views(local@) == wanted_local(specs.subrange(0, i as int), local_root@),
            views(sidecar@) == wanted_sidecar(specs.subrange(0, i as int)),
            digests@ == wanted_digests(specs.subrange(0, i as int)),
            views(dirs@) == wanted_dirs(specs.subrange(0, i as int)),
        decreases desired_variants.len() - i,
    {
        let ghost l0 = local@;
        let ghost s0 = sidecar@;
        let ghost d0 = dirs@;
        let ghost g0 = digests@;
        let spec: &ProxyVariantSpec = &desired_variants[i];
        proof {
            let next = specs.subrange(0, i + 1);
            assert(next.drop_last() =~= specs.subrange(0, i as int));
            assert(next.last() == *spec);
        }
        if let Some(p) = spec.local_proxy_path(local_root) {
            local.push(p);
            proof {
                assert(views(local@) =~= views(l0).push(p@));
            }
        }
        if let Some(p) = spec.alongside_proxy_path() {
            sidecar.push(p);
            proof {
                assert(views(sidecar@) =~= views(s0).push(p@));
            }
        }
        digests.push(spec.source_hash());
        proof {
            assert(digests@ =~= wanted_digests(specs.subrange(0, i + 1)));
        }
        if let Some(d) = sidecar_proxy_dir_for(&spec.source_path) {
            dirs.push(d);
            proof {
                assert(views(dirs@) =~= views(d0).push(d@));
            }
        }
        i = i + 1;
    }
    proof {
        assert(specs.subrange(0, i as int) =~= specs);
    }
    let sidecar_dirs: Vec<String> = without_repeats(&dirs);
    let mut sidecar_digests: Vec<Vec<u64>> = Vec::new();
    let mut j: usize = 0;
    while j < sidecar_dirs.len()
        invariant
            j <= sidecar_dirs@.len(),
            sidecar_digests@.len() == j,
            forall|k: int|
                0 <= k < j ==> (#[trigger] sidecar_digests@[k])@ == digests_at(
                    desired_variants@,
                    sidecar_dirs@[k]@,
                ),
        decreases sidecar_dirs.len() - j,
    {
        sidecar_digests.push(digests_for_dir(desired_variants, &sidecar_dirs[j]));
        j = j + 1;
    }
    Some(
        CleanupPlan {
            desired_local: local,
            desired_sidecar: sidecar,
            local_digests: digests,
            sidecar_dirs,
            sidecar_digests,
        },
    )
}

impl ProxyCache {
    /// The files of proxies that are ready.
    fn ready_files(&self) -> (r: Vec<String>)
        requires
            self.wf(),
        ensures
            forall|p: Seq<char>|
                #![trigger is_ready_file(self@, p)]
                is_ready_file(self@, p) <==> exists|j: int|
                    0 <= j < r@.len() && (#[trigger] r@[j])@ == p,
    {
        let mut r: Vec<String> = clone_all(&self.proxies.values);
        let mut more: Vec<String> = clone_all(&self.ready.values);
        let ghost first = r@;
        let ghost second = more@;
        r.append(&mut more);
        proof {
            assert(r@ =~= first + second);
            let n = first.len() as int;
            assert forall|p: Seq<char>|
                #![trigger is_ready_file(self@, p)]
                is_ready_file(self@, p) <==> exists|j: int|
                    0 <= j < r@.len() && (#[trigger] r@[j])@ == p by {
                if exists|k: Seq<char>| #[trigger]
                    self@.proxies.dom().contains(k) && self@.proxies[k] == p {
                    let k = choose|k: Seq<char>| #[trigger]
                        self@.proxies.dom().contains(k) && self@.proxies[k] == p;
                    let j = crate::keyed::place(self.proxies.names(), k);
                    assert(self.proxies.names()[j] == k);
                    self.proxies.lemma_at(j);
                    assert(r@[j]@ == p);
                }
                if exists|k: Slot| #[trigger] self@.ready.dom().contains(k) && self@.ready[k] == p {
                    let k = choose|k: Slot| #[trigger]
                        self@.ready.dom().contains(k) && self@.ready[k] == p;
                    let j = slot_place(self.ready.names(), k);
                    assert(self.ready.names()[j] == k);
                    self.ready.lemma_at(j);
                    assert(second[j]@ == p);
                    assert(r@[n + j]@ == p);
                }
                if exists|j: int| 0 <= j < r@.len() && (#[trigger] r@[j])@ == p {
                    let j = choose|j: int| 0 <= j < r@.len() && (#[trigger] r@[j])@ == p;
                    if j < n {
                        self.proxies.lemma_at(j);
                        assert(self@.proxies.dom().contains(self.proxies.keys@[j]@));
                    } else {
                        assert(second[j - n]@ == p);
                        self.ready.lemma_at(j - n);
                        assert(self@.ready.dom().contains(slot_of(self.ready.keys@[j - n])));
                    }
                }
            }
        }
        r
    }

    /// The files to take away from the managed directory when a project is closed: proxies that
    /// are ready, and files that this session made.
    pub fn local_cleanup_candidates(&self) -> (r: StringSet)
        requires
            self.wf(),
        ensures
            r.wf(),
            forall|p: Seq<char>| #[trigger]
                r@.contains(p) <==> is_local_leftover(self@, self.local_cache_root@, p),
    {
        let ghost root = self.local_cache_root@;
        let files: Vec<String> = self.ready_files();
        let mut r = StringSet::new();
        let mut i: usize = 0;
        while i < files.len()
            invariant
                i <= files@.len(),
                root == self.local_cache_root@,
                r.wf(),
                forall|p: Seq<char>| #[trigger]
                    r@.contains(p) <==> is_within(p, root) && exists|j: int|
                        0 <= j < i && (#[trigger] files@[j])@ == p,
            decreases files.len() - i,
        {
            let ghost before = r@;
            let path: &String = &files[i];
            if within(path, &self.local_cache_root) {
                r.insert(path.clone());
            }
            proof {
                assert forall|p: Seq<char>| #[trigger]
                    r@.contains(p) <==> is_within(p, root) && exists|j: int|
                        0 <= j < i + 1 && (#[trigger] files@[j])@ == p by {
                    if before.contains(p) {
                        let j = choose|j: int|
                            0 <= j < i && (#[trigger] files@[j])@ == p;
                        assert(0 <= j < i + 1 && files@[j]@ == p);
                    }
                    if is_within(p, root) && exists|j: int|
                        0 <= j < i + 1 && (#[trigger] files@[j])@ == p {
                        let j = choose|j: int|
                            0 <= j < i + 1 && (#[trigger] files@[j])@ == p;
                        if j < i {
                            assert(before.contains(p));
                        }
                    }
                }
            }
            i = i + 1;
        }
        proof {
            assert forall|p: Seq<char>| #[trigger]
                r@.contains(p) <==> is_within(p, root) && is_ready_file(self@, p) by {
                assert(is_ready_file(self@, p) <==> exists|j: int|
                    0 <= j < files@.len() && (#[trigger] files@[j])@ == p);
            }
        }
        let names: Vec<String> = self.runtime_owned_local_files.members();
        let ghost first = r@;
        let mut j: usize = 0;
        while j < names.len()
            invariant
                j <= names@.len(),
                root == self.local_cache_root@,
                r.wf(),
                forall|p: Seq<char>| #[trigger]
                    r@.contains(p) <==> first.contains(p) || (is_within(p, root) && exists|k: int|
                        0 <= k < j && (#[trigger] names@[k])@ == p),
            decreases names.len() - j,
        {
            let ghost before = r@;
            if within(&names[j], &self.local_cache_root) {
                r.insert(names[j].clone());
            }
            proof {
                assert forall|p: Seq<char>| #[trigger]
                    r@.contains(p) <==> first.contains(p) || (is_within(p, root) && exists|k: int|
                        0 <= k < j + 1 && (#[trigger] names@[k])@ == p) by {
                    if before.contains(p) && !first.contains(p) {
                        let k = choose|k: int| 0 <= k < j && (#[trigger] names@[k])@ == p;
                        assert(0 <= k < j + 1 && names@[k]@ == p);
                    }
                    if is_within(p, root) && exists|k: int|
                        0 <= k < j + 1 && (#[trigger] names@[k])@ == p {
                        let k = choose|k: int| 0 <= k < j + 1 && (#[trigger] names@[k])@ == p;
                        if k < j {
                            assert(before.contains(p));
                        }
                    }
                }
            }
            j = j + 1;
        }
        proof {
            assert forall|p: Seq<char>| #[trigger]
                r@.contains(p) <==> is_local_leftover(self@, root, p) by {
                let v = views(names@);
                if exists|k: int| 0 <= k < j && (#[trigger] names@[k])@ == p {
                    let k = choose|k: int| 0 <= k < j && (#[trigger] names@[k])@ == p;
                    assert(v[k] == p);
                    assert(v.to_set().contains(p));
                }
                if self@.owned.contains(p) {
                    assert(v.contains(p));
                    let k = choose|k: int| 0 <= k < v.len() && v[k] == p;
                    assert(names@[k]@ == p);
                }
            }
        }
        r
    }

    /// The files to take away beside their sources when a project is closed.
    pub fn sidecar_cleanup_candidates(&self) -> (r: StringSet)
        requires
            self.wf(),
        ensures
            r.wf(),
            forall|p: Seq<char>| #[trigger] r@.contains(p) <==> is_sidecar_leftover(self@, p),
    {
        let files: Vec<String> = self.ready_files();
        let mut r = StringSet::new();
        let mut i: usize = 0;
        while i < files.len()
            invariant
                i <= files@.len(),
                r.wf(),
                forall|p: Seq<char>| #[trigger]
                    r@.contains(p) <==> is_beside_source(p) && exists|j: int|
                        0 <= j < i && (#[trigger] files@[j])@ == p,
            decreases files.len() - i,
        {
            let ghost before = r@;
            let path: &String = &files[i];
            if is_sidecar_proxy_path(path) {
                r.insert(path.clone());
            }
            proof {
                assert forall|p: Seq<char>| #[trigger]
                    r@.contains(p) <==> is_beside_source(p) && exists|j: int|
                        0 <= j < i + 1 && (#[trigger] files@[j])@ == p by {
                    if before.contains(p) {
                        let j = choose|j: int|
                            0 <= j < i && (#[trigger] files@[j])@ == p;
                        assert(0 <= j < i + 1 && files@[j]@ == p);
                    }
                    if is_beside_source(p) && exists|j: int|
                        0 <= j < i + 1 && (#[trigger] files@[j])@ == p {
                        let j = choose|j: int|
                            0 <= j < i + 1 && (#[trigger] files@[j])@ == p;
                        if j < i {
                            assert(before.contains(p));
                        }
                    }
                }
            }
            i = i + 1;
        }
        proof {
            assert forall|p: Seq<char>| #[trigger]
                r@.contains(p) <==> is_sidecar_leftover(self@, p) by {
                assert(is_ready_file(self@, p) <==> exists|j: int|
                    0 <= j < files@.len() && (#[trigger] files@[j])@ == p);
            }
        }
        r
    }

    /// Forgets files that are gone from the managed directory.
    pub fn cleanup_local_cache_for_unload(&mut self, removed: &Vec<String>)
        requires
            old(self).wf(),
        ensures
            final(self).wf(),
            final(self).same_settings(old(self)),
            final(self)@ == (ProxyView {
                owned: old(self)@.owned.difference(views(removed@).to_set()),
                ..forgotten(old(self)@, views(removed@).to_set())
            }),
    {
        let ghost before = self@;
        self.runtime_owned_local_files = self.runtime_owned_local_files.without(removed);
        self.proxies = self.proxies.drop_values(removed);
        self.ready = self.ready.kept(&self.proxies, removed);
        proof {
            assert(self@.proxies.dom() =~= self.proxies@.dom());
            assert forall|k: Slot| #[trigger] self.ready@.dom().contains(k) implies before.ready.dom().contains(
                k,
            ) && self.proxies@.dom().contains(k.0) by {
                assert(self@.ready.dom().contains(k));
            }
        }
    }

    /// Forgets files that are gone beside their sources.
    pub fn cleanup_sidecar_cache_for_unload(&mut self, removed: &Vec<String>)
        requires
            old(self).wf(),
        ensures
            final(self).wf(),
            final(self).same_settings(old(self)),
            final(self)@ == forgotten(old(self)@, views(removed@).to_set()),
    {
        let ghost before = self@;
        self.proxies = self.proxies.drop_values(removed);
        self.ready = self.ready.kept(&self.proxies, removed);
        proof {
            assert(self@.proxies.dom() =~= self.proxies@.dom());
            assert forall|k: Slot| #[trigger] self.ready@.dom().contains(k) implies before.ready.dom().contains(
                k,
            ) && self.proxies@.dom().contains(k.0) by {
                assert(self@.ready.dom().contains(k));
            }
        }
    }

    /// Forgets files that were cleaned up when a project was closed. Where proxies beside their
    /// sources are preserved, only the managed ones are forgotten.
    pub fn cleanup_for_unload(
        &mut self,
        preserve_sidecar_proxies: bool,
        removed_local: &Vec<String>,
        removed_sidecar: &Vec<String>,
    )
        requires
            old(self).wf(),
        ensures
            final(self).wf(),
            final(self).same_settings(old(self)),
            final(self)@ == ({
                let first = forgotten(old(self)@, views(removed_local@).to_set());
                ProxyView {
                    owned: old(self)@.owned.difference(views(removed_local@).to_set()),
                    ..(if preserve_sidecar_proxies {
                        first
                    } else {
                        forgotten(first, views(removed_sidecar@).to_set())
                    })
                }
            }),
    {
        self.cleanup_local_cache_for_unload(removed_local);
        if preserve_sidecar_proxies {
            return;
        }
        self.cleanup_sidecar_cache_for_unload(removed_sidecar);
    }

    /// Forgets files that a clean-up of variants took away.
    pub fn cleanup_stale_variants(
        &mut self,
        removed_local: &Vec<String>,
        removed_sidecar: &Vec<String>,
    ) -> (r: ProxyCleanupSummary)
        requires
            old(self).wf(),
        ensures
            final(self).wf(),
            final(self).same_settings(old(self)),
            final(self)@ == (ProxyView {
                owned: old(self)@.owned.difference(views(removed_local@).to_set()),
                ..forgotten(
                    forgotten(old(self)@, views(removed_local@).to_set()),
                    views(removed_sidecar@).to_set(),
                )
            }),
            r.removed_local == distinct(views(removed_local@)).len(),
            r.removed_sidecar == distinct(views(removed_sidecar@)).len(),
    {
        self.cleanup_local_cache_for_unload(removed_local);
        self.cleanup_sidecar_cache_for_unload(removed_sidecar);
        let local: Vec<String> = without_repeats(removed_local);
        let sidecar: Vec<String> = without_repeats(removed_sidecar);
        proof {
            assert(views(local@).len() == local@.len());
            assert(views(sidecar@).len() == sidecar@.len());
        }
        ProxyCleanupSummary { removed_local: local.len(), removed_sidecar: sidecar.len() }
    }
}

/// A job's list of LUTs is read back as it was written, where no path holds a bar and the first is
/// not empty.
pub proof fn lemma_luts_read_back(luts: Seq<Seq<char>>)
    requires
        luts.len() > 0,
        luts.len() > 1 || luts[0].len() > 0,
        forall|i: int| 0 <= i < luts.len() ==> !(#[trigger] luts[i]).contains('|'),
    ensures
        lut_pieces(job_lut(luts)) == luts,
{
    reveal_strlit("|");
    assert("|"@ =~= seq!['|']);
    lemma_split_joined(luts);
    if luts.len() > 1 {
        let l = join(luts, "|"@);
        assert(l.len() > 0);
    }
}

proof fn lemma_split_joined(parts: Seq<Seq<char>>)
    requires
        parts.len() > 0,
        forall|i: int| 0 <= i < parts.len() ==> !(#[trigger] parts[i]).contains('|'),
    ensures
        split(join(parts, seq!['|']), '|') == parts,
    decreases parts.len(),
{
    if parts.len() == 1 {
        crate::text::lemma_split_whole(parts[0], '|');
        assert(seq![parts[0]] =~= parts);
    } else {
        let front = parts.drop_last();
        assert forall|i: int| 0 <= i < front.len() implies !(#[trigger] front[i]).contains('|') by {
            assert(front[i] == parts[i]);
        }
        lemma_split_joined(front);
        let a = join(front, seq!['|']);
        let b = parts.last();
        assert(!parts[parts.len() - 1].contains('|'));
        assert(a + seq!['|'] + b =~= a.push('|') + b);
        crate::text::lemma_split_concat(a, b, '|');
        crate::text::lemma_split_whole(b, '|');
        assert(front + seq![b] =~= parts);
    }
}

/// A report concerns its own proxy: a good one is found at its file, for its key and for its scale,
/// a bad one is noted; neither is waited for any more, and nothing changes for others.
pub proof fn lemma_reported(s: ProxyView, r: ProxyResult, other: Slot)
    requires
        other != (r.cache_key@, r.scale),
    ensures
        ({
            let slot = (r.cache_key@, r.scale);
            let t = reported(s, ProxyWorkerUpdate::Done(r));
            &&& !t.pending.contains(slot)
            &&& r.success ==> t.ready.dom().contains(slot) && t.ready[slot] == r.proxy_path@
                && t.proxies.dom().contains(r.cache_key@) && t.proxies[r.cache_key@]
                == r.proxy_path@ && t.failed == s.failed
            &&& r.success && r.owned_local ==> t.owned.contains(r.proxy_path@)
            &&& !r.success || !r.owned_local ==> t.owned == s.owned
            &&& !r.success ==> t.failed.contains(slot) && t.ready == s.ready && t.proxies
                == s.proxies
            &&& is_known(t, other) == is_known(s, other)
            &&& s.ready.dom().contains(other) ==> t.ready[other] == s.ready[other]
            &&& t.total == s.total
        }),
{
}

/// Reports that come in two batches are taken in as those of one.
pub proof fn lemma_reports_add_up(
    s: ProxyView,
    a: Seq<ProxyWorkerUpdate>,
    b: Seq<ProxyWorkerUpdate>,
)
    ensures
        all_reported(s, a + b) == all_reported(all_reported(s, a), b),
        settled(a + b) == settled(a) + settled(b),
        newly_owned(a + b) == newly_owned(a) + newly_owned(b),
    decreases b.len(),
{
    if b.len() == 0 {
        assert(a + b =~= a);
        assert(settled(a) + settled(b) =~= settled(a));
        assert(newly_owned(a) + newly_owned(b) =~= newly_owned(a));
    } else {
        lemma_reports_add_up(s, a, b.drop_last());
        assert((a + b).drop_last() =~= a + b.drop_last());
        assert(settled(a + b) =~= settled(a) + settled(b));
        assert(newly_owned(a + b) =~= newly_owned(a) + newly_owned(b));
    }
}

/// One report that a proxy is done settles its key, and tells of a new file of our own where it was
/// made in the managed directory.
pub proof fn lemma_one_report(r: ProxyResult)
    ensures
        settled(seq![ProxyWorkerUpdate::Done(r)]) == seq![r.cache_key@],
        r.success && r.owned_local ==> newly_owned(seq![ProxyWorkerUpdate::Done(r)]) == seq![
            r.proxy_path@,
        ],
        !(r.success && r.owned_local) ==> newly_owned(seq![ProxyWorkerUpdate::Done(r)]).len() == 0,
{
    let one = seq![ProxyWorkerUpdate::Done(r)];
    assert(one.drop_last() =~= Seq::empty());
    assert(settled(one.drop_last()) =~= Seq::empty());
    assert(newly_owned(one.drop_last()) =~= Seq::empty());
    assert(settled(one) =~= seq![r.cache_key@]);
    if r.success && r.owned_local {
        assert(newly_owned(one) =~= seq![r.proxy_path@]);
    }
}

/// Once files were removed, no proxy is found at them; all others stay.
pub proof fn lemma_forgotten(s: ProxyView, removed: Set<Seq<char>>, k: Seq<char>, slot: Slot)
    ensures
        ({
            let t = forgotten(s, removed);
            &&& t.proxies.dom().contains(k) <==> s.proxies.dom().contains(k) && !removed.contains(
                s.proxies[k],
            )
            &&& t.proxies.dom().contains(k) ==> t.proxies[k] == s.proxies[k]
            &&& t.ready.dom().contains(slot) ==> s.ready.dom().contains(slot) && !removed.contains(
                s.ready[slot],
            ) && t.ready[slot] == s.ready[slot]
            &&& t.pending == s.pending && t.failed == s.failed
        }),
{
}

/// The estimates add up, up to the largest number; of each proxy no more is counted as written than
/// was estimated.
pub proof fn lemma_totals(
    names: Seq<Slot>,
    values: Seq<u64>,
    written: Map<Slot, u64>,
    n: nat,
)
    requires
        n <= values.len(),
        n <= names.len(),
    ensures
        written_total(names, values, written, n) <= estimate_total(values, n) <= u64::MAX,
        n > 0 && estimate_total(values, (n - 1) as nat) + values[n - 1] <= u64::MAX
            ==> estimate_total(values, n) == estimate_total(values, (n - 1) as nat) + values[n - 1],
        n > 0 && !written.dom().contains(names[n - 1]) ==> written_total(names, values, written, n)
            == written_total(names, values, written, (n - 1) as nat),
        n > 0 && written.dom().contains(names[n - 1]) && written[names[n - 1]] <= values[n - 1]
            && estimate_total(values, (n - 1) as nat) + values[n - 1] <= u64::MAX ==> written_total(
            names,
            values,
            written,
            n,
        ) == written_total(names, values, written, (n - 1) as nat) + written[names[n - 1]],
        estimate_total(values, 0) == 0,
    decreases n,
{
    if n > 0 {
        lemma_totals(names, values, written, (n - 1) as nat);
    }
}

/// Every variant that is wanted has its file and its digest among those that are kept, and its
/// directory among those that are looked through.
pub proof fn lemma_wanted(specs: Seq<ProxyVariantSpec>, root: Seq<char>, k: int)
    requires
        0 <= k < specs.len(),
    ensures
        wanted_digests(specs).contains(text_digest(specs[k].source_path@)),
        placed(Some(root), variant_name(specs[k]@)) matches Some(p) ==> wanted_local(
            specs,
            root,
        ).contains(p),
        placed(sidecar_dir(specs[k].source_path@), variant_name(specs[k]@)) matches Some(p)
            ==> wanted_sidecar(specs).contains(p),
        sidecar_dir(specs[k].source_path@) matches Some(d) ==> wanted_dirs(specs).contains(d)
            && digests_at(specs, d).contains(text_digest(specs[k].source_path@)),
    decreases specs.len(),
{
    let front = specs.drop_last();
    assert(wanted_digests(specs)[k] == text_digest(specs[k].source_path@));
    if k < front.len() {
        assert(front[k] == specs[k]);
        lemma_wanted(front, root, k);
        if let Some(p) = placed(Some(root), variant_name(specs[k]@)) {
            let i = choose|i: int|
                0 <= i < wanted_local(front, root).len() && wanted_local(front, root)[i] == p;
            assert(wanted_local(specs, root)[i] == p);
        }
        if let Some(p) = placed(sidecar_dir(specs[k].source_path@), variant_name(specs[k]@)) {
            let i = choose|i: int|
                0 <= i < wanted_sidecar(front).len() && wanted_sidecar(front)[i] == p;
            assert(wanted_sidecar(specs)[i] == p);
        }
        if let Some(d) = sidecar_dir(specs[k].source_path@) {
            let i = choose|i: int| 0 <= i < wanted_dirs(front).len() && wanted_dirs(front)[i] == d;
            assert(wanted_dirs(specs)[i] == d);
            let x = digests_at(front, d);
            let j = choose|j: int| 0 <= j < x.len() && x[j] == text_digest(specs[k].source_path@);
            assert(digests_at(specs, d)[j] == x[j]);
        }
    } else {
        assert(specs[k] == specs.last());
        if let Some(p) = placed(Some(root), variant_name(specs[k]@)) {
            assert(wanted_local(specs, root)[wanted_local(specs, root).len() - 1] == p);
        }
        if let Some(p) = placed(sidecar_dir(specs[k].source_path@), variant_name(specs[k]@)) {
            assert(wanted_sidecar(specs)[wanted_sidecar(specs).len() - 1] == p);
        }
        if let Some(d) = sidecar_dir(specs[k].source_path@) {
            assert(wanted_dirs(specs)[wanted_dirs(specs).len() - 1] == d);
            assert(digests_at(specs, d)[digests_at(specs, d).len() - 1] == text_digest(
                specs[k].source_path@,
            ));
        }
    }
}

/// A proxy is made where it is neither known nor found; one that is found is ready at once, and one
/// that is known is left as it is.
pub proof fn lemma_requested(
    before: ProxyView,
    after: ProxyView,
    slot: Slot,
    existing: Option<Seq<char>>,
    job: bool,
)
    requires
        is_requested(before, after, slot, existing, job),
    ensures
        job <==> !is_known(before, slot) && existing is None,
        job ==> after.pending.contains(slot) && after.total == before.total + 1 && after.ready
            == before.ready && after.proxies == before.proxies,
        !is_known(before, slot) && existing is Some ==> after.ready.dom().contains(slot)
            && after.ready[slot] == existing->Some_0 && after.proxies[slot.0] == existing->Some_0
            && after.pending == before.pending && after.total == before.total,
        is_known(before, slot) ==> after == before,
        is_known(after, slot),
{
}

} // verus!
