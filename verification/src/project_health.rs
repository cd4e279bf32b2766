//! Project health: which source files are missing, and what the caches and models take up.

use crate::keyed::{StringMap, StringSet};
use crate::model::{Clip, MediaItem, Project, Track};
use crate::text::{
    decimal, distinct, in_order, join, joined, lemma_distinct, owned, push_wide, sorted, views,
    without_repeats,
};
use vstd::prelude::*;
use vstd::string::*;

verus! {

/// A directory that the health report covers.
#[derive(Debug, Clone, Copy, PartialEq, Eq, Structural)]
pub enum ProjectHealthPathKind {
    ProxyLocal,
    ProxySidecars,
    Prerender,
    BackgroundRemoval,
    FrameInterpolation,
    VoiceEnhancement,
    ClipEmbeddings,
    AutoTags,
    ClipSearchModels,
    BackgroundRemovalModel,
    FrameInterpolationModel,
    SttModel,
}

/// What a directory holds.
#[derive(Debug, Clone, Copy, PartialEq, Eq, Structural)]
pub enum ProjectHealthPathCategory {
    GeneratedCache,
    InstalledModel,
}

/// What a directory takes up.
#[derive(Debug, Clone, PartialEq, Eq)]
pub struct ProjectHealthPathSummary {
    pub kind: ProjectHealthPathKind,
    pub category: ProjectHealthPathCategory,
    pub label: &'static str,
    pub path: String,
    pub exists: bool,
    pub file_count: usize,
    pub size_bytes: u64,
    pub cleanup_supported: bool,
}

/// The health of a project.
#[derive(Debug, Clone, PartialEq, Eq)]
pub struct ProjectHealthSnapshot {
    pub offline_paths: Vec<String>,
    pub offline_project_source_count: usize,
    pub offline_library_item_count: usize,
    pub paths: Vec<ProjectHealthPathSummary>,
    pub generated_cache_bytes: u64,
    pub installed_model_bytes: u64,
}

/// Number and total size of files.
#[derive(Debug, Clone, Copy, PartialEq, Eq, Structural)]
pub struct DirectoryUsage {
    pub file_count: usize,
    pub size_bytes: u64,
}

/// Proxies that lie beside source media.
#[derive(Debug, Clone)]
pub struct ProxySidecarUsage {
    pub directories: Vec<String>,
    pub file_count: usize,
    pub size_bytes: u64,
}

/// A directory as it was found on disk.
#[derive(Debug, Clone)]
pub struct DirectoryFacts {
    pub path: String,
    pub exists: bool,
    pub usage: DirectoryUsage,
}

/// The directories that the health report covers.
#[derive(Debug, Clone)]
pub struct HealthDirectories {
    pub proxy_local: DirectoryFacts,
    pub background_removal: DirectoryFacts,
    pub frame_interpolation: DirectoryFacts,
    pub voice_enhancement: DirectoryFacts,
    pub clip_embeddings: DirectoryFacts,
    pub auto_tags: DirectoryFacts,
    pub clip_search_models: DirectoryFacts,
    pub background_removal_model: DirectoryFacts,
    pub frame_interpolation_model: DirectoryFacts,
    pub stt_models: DirectoryFacts,
    pub prerender: Option<DirectoryFacts>,
}

// ------------------------------------------------------------- source paths
/// The source paths of a clip and of the clips inside it.
pub open spec fn clip_paths(c: Clip) -> Seq<Seq<char>>
    decreases c, 0nat,
{
    let own = if c.source_path@.len() == 0 {
        Seq::<Seq<char>>::empty()
    } else {
        seq![c.source_path@]
    };
    match c.compound_tracks {
        Some(t) => own + tracks_paths(t@, t@.len()),
        None => own,
    }
}

/// The source paths of the first `n` clips.
pub open spec fn clips_paths(clips: Seq<Clip>, n: nat) -> Seq<Seq<char>>
    decreases clips, n,
{
    if n == 0 || n > clips.len() {
        Seq::empty()
    } else {
        clips_paths(clips, (n - 1) as nat) + clip_paths(clips[n - 1])
    }
}

/// The source paths of the clips on the first `n` tracks.
pub open spec fn tracks_paths(tracks: Seq<Track>, n: nat) -> Seq<Seq<char>>
    decreases tracks, n,
{
    if n == 0 || n > tracks.len() {
        Seq::empty()
    } else {
        tracks_paths(tracks, (n - 1) as nat) + clips_paths(
            tracks[n - 1].clips@,
            tracks[n - 1].clips@.len(),
        )
    }
}

/// The source paths of the first `n` library items.
pub open spec fn items_paths(items: Seq<MediaItem>, n: nat) -> Seq<Seq<char>>
    decreases n,
{
    if n == 0 {
        Seq::empty()
    } else {
        let front = items_paths(items, (n - 1) as nat);
        if items[n - 1].source_path@.len() == 0 {
            front
        } else {
            front.push(items[n - 1].source_path@)
        }
    }
}

/// The source paths of a project, each once.
pub open spec fn project_paths(project: Project) -> Seq<Seq<char>> {
    distinct(tracks_paths(project.tracks@, project.tracks@.len()))
}

/// The source paths of a project and its library, each once.
pub open spec fn media_paths(project: Project, library: Seq<MediaItem>) -> Seq<Seq<char>> {
    distinct(
        tracks_paths(project.tracks@, project.tracks@.len()) + items_paths(library, library.len()),
    )
}

fn push_path(paths: &mut Vec<String>, path: &String)
    ensures
        views(final(paths)@) == views(old(paths)@).push(path@),
{
    let ghost before = paths@;
    paths.push(path.clone());
    proof {
        assert(views(paths@) =~= views(before).push(path@));
    }
}

/// Collects the source paths of a clip and of the clips inside it.
pub fn collect_clip_source_paths(clip: &Clip, paths: &mut Vec<String>)
    ensures
        views(final(paths)@) == views(old(paths)@) + clip_paths(*clip),
    decreases clip, 0nat,
{
    let ghost before = views(paths@);
    if !clip.source_path.as_str().is_empty() {
        push_path(paths, &clip.source_path);
    }
    proof {
        let own = if clip.source_path@.len() == 0 {
            Seq::<Seq<char>>::empty()
        } else {
            seq![clip.source_path@]
        };
        assert(views(paths@) =~= before + own);
    }
    if let Some(tracks) = &clip.compound_tracks {
        let ghost mid = views(paths@);
        collect_track_source_paths(tracks, paths);
        proof {
            assert(views(paths@) =~= before + clip_paths(*clip));
        }
    }
}

/// Collects the source paths of the clips on tracks.
pub fn collect_track_source_paths(tracks: &Vec<Track>, paths: &mut Vec<String>)
    ensures
        views(final(paths)@) == views(old(paths)@) + tracks_paths(tracks@, tracks@.len()),
    decreases tracks, 0nat,
{
    let ghost before = views(paths@);
    let mut i: usize = 0;
    proof {
        assert(views(paths@) =~= before + tracks_paths(tracks@, 0));
    }
    while i < tracks.len()
        invariant
            i <= tracks@.len(),
            views(paths@) == before + tracks_paths(tracks@, i as nat),
        decreases tracks.len() - i,
    {
        let clips = &tracks[i].clips;
        let ghost mid = views(paths@);
        let mut k: usize = 0;
        proof {
            assert(views(paths@) =~= mid + clips_paths(clips@, 0));
        }
        while k < clips.len()
            invariant
                i < tracks@.len(),
                clips == &tracks@[i as int].clips,
                k <= clips@.len(),
                views(paths@) == mid + clips_paths(clips@, k as nat),
            decreases clips.len() - k,
        {
            proof {
                assert(decreases_to!(tracks => clips));
            }
            collect_clip_source_paths(&clips[k], paths);
            proof {
                assert(views(paths@) =~= mid + clips_paths(clips@, (k + 1) as nat));
            }
            k = k + 1;
        }
        proof {
            assert(views(paths@) =~= before + tracks_paths(tracks@, (i + 1) as nat));
        }
        i = i + 1;
    }
}

/// The source paths of a project, each once.
pub fn collect_project_source_paths(project: &Project) -> (r: Vec<String>)
    ensures
        views(r@) == project_paths(*project),
{
    let mut all: Vec<String> = Vec::new();
    collect_track_source_paths(&project.tracks, &mut all);
    proof {
        assert(views(all@) =~= tracks_paths(project.tracks@, project.tracks@.len()));
    }
    without_repeats(&all)
}

/// The source paths of a project and its library, each once.
pub fn relevant_media_source_paths(project: &Project, library: &Vec<MediaItem>) -> (r: Vec<String>)
    ensures
        views(r@) == media_paths(*project, library@),
{
    let mut all: Vec<String> = Vec::new();
    collect_track_source_paths(&project.tracks, &mut all);
    let ghost own = tracks_paths(project.tracks@, project.tracks@.len());
    let mut i: usize = 0;
    proof {
        assert(views(all@) =~= own + items_paths(library@, 0));
    }
    while i < library.len()
        invariant
            i <= library@.len(),
            views(all@) == own + items_paths(library@, i as nat),
        decreases library.len() - i,
    {
        if !library[i].source_path.as_str().is_empty() {
            push_path(&mut all, &library[i].source_path);
            proof {
                assert(views(all@) =~= own + items_paths(library@, (i + 1) as nat));
            }
        }
        i = i + 1;
    }
    without_repeats(&all)
}

/// Says of each source path whether it exists. `present` holds the paths that do.
pub fn build_media_availability_index(
    project: &Project,
    library: &Vec<MediaItem>,
    present: &StringSet,
) -> (r: StringMap<bool>)
    requires
        present.wf(),
    ensures
        r.wf(),
        r@.dom() == media_paths(*project, library@).to_set(),
        forall|p: Seq<char>| #[trigger] r@.dom().contains(p) ==> r@[p] == present@.contains(p),
        r.names() == media_paths(*project, library@),
{
    let paths = relevant_media_source_paths(project, library);
    let ghost all = views(paths@);
    let mut r: StringMap<bool> = StringMap::new();
    let mut i: usize = 0;
    proof {
        lemma_distinct(
            tracks_paths(project.tracks@, project.tracks@.len()) + items_paths(
                library@,
                library@.len(),
            ),
        );
        assert(r@.dom() =~= all.subrange(0, 0).to_set());
        assert(r.names() =~= all.subrange(0, 0));
    }
    while i < paths.len()
        invariant
            i <= paths@.len(),
            present.wf(),
            all == views(paths@),
            all.no_duplicates(),
            r.wf(),
            r.names() == all.subrange(0, i as int),
            r@.dom() == all.subrange(0, i as int).to_set(),
            forall|p: Seq<char>| #[trigger] r@.dom().contains(p) ==> r@[p] == present@.contains(p),
        decreases paths.len() - i,
    {
        let there: bool = present.contains(&paths[i]);
        let ghost before = r@;
        let ghost name = paths@[i as int]@;
        proof {
            assert(all[i as int] == name);
            let front = all.subrange(0, i as int);
            assert(all.subrange(0, i + 1) =~= front.push(name));
            crate::keyed::lemma_push_members(front, name);
            assert(!front.contains(name)) by {
                if front.contains(name) {
                    let k = choose|k: int| 0 <= k < front.len() && front[k] == name;
                    assert(all[k] == all[i as int]);
                }
            }
        }
        r.insert(paths[i].clone(), there);
        proof {
            assert(r@.dom() =~= before.dom().insert(name));
        }
        i = i + 1;
    }
    proof {
        assert(all.subrange(0, i as int) =~= all);
    }
    r
}

/// The texts that are not in `present`.
pub open spec fn absent(paths: Seq<Seq<char>>, present: Set<Seq<char>>) -> Seq<Seq<char>>
    decreases paths.len(),
{
    if paths.len() == 0 {
        Seq::empty()
    } else {
        let front = absent(paths.drop_last(), present);
        if present.contains(paths.last()) {
            front
        } else {
            front.push(paths.last())
        }
    }
}

/// `absent` leaves out just the texts that are in `present`.
pub proof fn lemma_absent(paths: Seq<Seq<char>>, present: Set<Seq<char>>, p: Seq<char>)
    ensures
        absent(paths, present).contains(p) <==> paths.contains(p) && !present.contains(p),
    decreases paths.len(),
{
    if paths.len() > 0 {
        let front = paths.drop_last();
        let kept = absent(front, present);
        lemma_absent(front, present, p);
        if paths.contains(p) && p != paths.last() {
            let k = choose|k: int| 0 <= k < paths.len() && paths[k] == p;
            assert(front[k] == p);
        }
        if front.contains(p) {
            let k = choose|k: int| 0 <= k < front.len() && front[k] == p;
            assert(paths[k] == p);
        }
        assert(paths[paths.len() - 1] == paths.last());
        if !present.contains(paths.last()) {
            let r = kept.push(paths.last());
            if kept.contains(p) {
                let k = choose|k: int| 0 <= k < kept.len() && kept[k] == p;
                assert(r[k] == p);
            }
            assert(r[kept.len() as int] == paths.last());
            if r.contains(p) && p != paths.last() {
                let k = choose|k: int| 0 <= k < r.len() && r[k] == p;
                assert(kept[k] == p);
            }
        }
    }
}

/// The source paths that do not exist, in ascending order.
pub open spec fn missing_paths(
    project: Project,
    library: Seq<MediaItem>,
    present: Set<Seq<char>>,
) -> Seq<Seq<char>> {
    sorted(absent(media_paths(project, library), present))
}

/// The source paths that do not exist, in ascending order. `present` holds the paths that do.
pub fn missing_source_paths(project: &Project, library: &Vec<MediaItem>, present: &StringSet) -> (r:
    Vec<String>)
    requires
        present.wf(),
    ensures
        views(r@) == missing_paths(*project, library@, present@),
{
    let paths = relevant_media_source_paths(project, library);
    let ghost all = views(paths@);
    let mut missing: Vec<String> = Vec::new();
    let mut i: usize = 0;
    proof {
        assert(views(missing@) =~= absent(all.subrange(0, 0), present@));
    }
    while i < paths.len()
        invariant
            i <= paths@.len(),
            present.wf(),
            all == views(paths@),
            views(missing@) == absent(all.subrange(0, i as int), present@),
        decreases paths.len() - i,
    {
        proof {
            assert(all.subrange(0, i + 1).drop_last() =~= all.subrange(0, i as int));
            assert(all.subrange(0, i + 1).last() == paths@[i as int]@);
        }
        if !present.contains(&paths[i]) {
            push_path(&mut missing, &paths[i]);
        }
        i = i + 1;
    }
    proof {
        assert(all.subrange(0, i as int) =~= all);
    }
    in_order(&missing)
}

proof fn lemma_clip_source_listed(clips: Seq<Clip>, n: nat, k: int, p: Seq<char>)
    requires
        0 <= k < n <= clips.len(),
        clip_paths(clips[k]).contains(p),
    ensures
        clips_paths(clips, n).contains(p),
    decreases n,
{
    let front = clips_paths(clips, (n - 1) as nat);
    let last = clip_paths(clips[n - 1]);
    if k == n - 1 {
        let x = choose|x: int| 0 <= x < last.len() && last[x] == p;
        assert((front + last)[front.len() + x] == p);
    } else {
        lemma_clip_source_listed(clips, (n - 1) as nat, k, p);
        let x = choose|x: int| 0 <= x < front.len() && front[x] == p;
        assert((front + last)[x] == p);
    }
}

proof fn lemma_track_source_listed(tracks: Seq<Track>, n: nat, t: int, k: int, p: Seq<char>)
    requires
        0 <= t < n <= tracks.len(),
        0 <= k < tracks[t].clips@.len(),
        clip_paths(tracks[t].clips@[k]).contains(p),
    ensures
        tracks_paths(tracks, n).contains(p),
    decreases n,
{
    let front = tracks_paths(tracks, (n - 1) as nat);
    let clips = tracks[n - 1].clips@;
    let last = clips_paths(clips, clips.len());
    if t == n - 1 {
        lemma_clip_source_listed(clips, clips.len(), k, p);
        let x = choose|x: int| 0 <= x < last.len() && last[x] == p;
        assert((front + last)[front.len() + x] == p);
    } else {
        lemma_track_source_listed(tracks, (n - 1) as nat, t, k, p);
        let x = choose|x: int| 0 <= x < front.len() && front[x] == p;
        assert((front + last)[x] == p);
    }
}

/// A clip inside a compound clip counts: its source is among the sources of the compound.
pub proof fn lemma_nested_source_counts(compound: Clip, t: int, k: int)
    requires
        compound.compound_tracks is Some,
        0 <= t < compound.compound_tracks->Some_0@.len(),
        0 <= k < compound.compound_tracks->Some_0@[t].clips@.len(),
        compound.compound_tracks->Some_0@[t].clips@[k].source_path@.len() > 0,
    ensures
        clip_paths(compound).contains(
            compound.compound_tracks->Some_0@[t].clips@[k].source_path@,
        ),
{
    let tracks = compound.compound_tracks->Some_0@;
    let inner = tracks[t].clips@[k];
    let p = inner.source_path@;
    assert(clip_paths(inner)[0] == p);
    lemma_track_source_listed(tracks, tracks.len(), t, k, p);
    let below = tracks_paths(tracks, tracks.len());
    let own = if compound.source_path@.len() == 0 {
        Seq::<Seq<char>>::empty()
    } else {
        seq![compound.source_path@]
    };
    let x = choose|x: int| 0 <= x < below.len() && below[x] == p;
    assert((own + below)[own.len() + x] == p);
}

// ----------------------------------------------------------------- summaries
/// What a summary says of a directory.
pub open spec fn is_summary(
    s: ProjectHealthPathSummary,
    kind: ProjectHealthPathKind,
    category: ProjectHealthPathCategory,
    label: Seq<char>,
    d: DirectoryFacts,
    cleanup: bool,
) -> bool {
    &&& s.kind == kind
    &&& s.category == category
    &&& s.label@ == label
    &&& s.path@ == d.path@
    &&& s.exists == d.exists
    &&& s.file_count == d.usage.file_count
    &&& s.size_bytes == d.usage.size_bytes
    &&& s.cleanup_supported == cleanup
}

/// Summarises a directory.
pub fn summarize_path(
    kind: ProjectHealthPathKind,
    category: ProjectHealthPathCategory,
    label: &'static str,
    directory: &DirectoryFacts,
    cleanup_supported: bool,
) -> (r: ProjectHealthPathSummary)
    ensures
        is_summary(r, kind, category, label@, *directory, cleanup_supported),
{
    ProjectHealthPathSummary {
        kind,
        category,
        label,
        path: directory.path.clone(),
        exists: directory.exists,
        file_count: directory.usage.file_count,
        size_bytes: directory.usage.size_bytes,
        cleanup_supported,
    }
}

/// Where sidecar proxies lie, in words: up to three directories, one to a line.
pub open spec fn sidecar_text(paths: Seq<Seq<char>>) -> Seq<char> {
    if paths.len() == 0 {
        "UltimateSlice.cache/ beside project source media"@
    } else if paths.len() <= 3 {
        join(paths, "\n"@)
    } else {
        join(
            paths.subrange(0, 3).push(
                "…and "@ + decimal((paths.len() - 3) as nat) + " more"@,
            ),
            "\n"@,
        )
    }
}

/// Where sidecar proxies lie, in words.
pub fn format_proxy_sidecar_paths(paths: &Vec<String>) -> (r: String)
    ensures
        r@ == sidecar_text(views(paths@)),
{
    if paths.len() == 0 {
        return owned("UltimateSlice.cache/ beside project source media");
    }
    if paths.len() <= 3 {
        return joined(paths, "\n");
    }
    let mut lines: Vec<String> = Vec::new();
    lines.push(paths[0].clone());
    lines.push(paths[1].clone());
    lines.push(paths[2].clone());
    let mut more = owned("…and ");
    push_wide(&mut more, (paths.len() - 3) as u128);
    more.append(" more");
    let ghost mv = more@;
    lines.push(more);
    proof {
        assert(views(lines@) =~= views(paths@).subrange(0, 3).push(mv));
    }
    joined(&lines, "\n")
}

/// What the summary of sidecar proxies says.
pub open spec fn is_sidecar_summary(s: ProjectHealthPathSummary, u: ProxySidecarUsage) -> bool {
    &&& s.kind == ProjectHealthPathKind::ProxySidecars
    &&& s.category == ProjectHealthPathCategory::GeneratedCache
    &&& s.label@ == "Alongside-media proxy cache"@
    &&& s.path@ == sidecar_text(views(u.directories@))
    &&& s.exists == (u.directories@.len() > 0)
    &&& s.file_count == u.file_count
    &&& s.size_bytes == u.size_bytes
    &&& s.cleanup_supported
}

/// Summarises the proxies that lie beside source media.
pub fn summarize_proxy_sidecars(usage: &ProxySidecarUsage) -> (r: ProjectHealthPathSummary)
    ensures
        is_sidecar_summary(r, *usage),
{
    ProjectHealthPathSummary {
        kind: ProjectHealthPathKind::ProxySidecars,
        category: ProjectHealthPathCategory::GeneratedCache,
        label: "Alongside-media proxy cache",
        path: format_proxy_sidecar_paths(&usage.directories),
        exists: usage.directories.len() > 0,
        file_count: usage.file_count,
        size_bytes: usage.size_bytes,
        cleanup_supported: true,
    }
}

/// The bytes that generated caches take up.
pub open spec fn cache_bytes(sidecars: ProxySidecarUsage, d: HealthDirectories) -> int {
    d.proxy_local.usage.size_bytes + sidecars.size_bytes + d.background_removal.usage.size_bytes
        + d.frame_interpolation.usage.size_bytes + d.voice_enhancement.usage.size_bytes
        + d.clip_embeddings.usage.size_bytes + d.auto_tags.usage.size_bytes + (match d.prerender {
        Some(p) => p.usage.size_bytes as int,
        None => 0,
    })
}

/// The bytes that installed models take up.
pub open spec fn model_bytes(d: HealthDirectories) -> int {
    d.clip_search_models.usage.size_bytes + d.background_removal_model.usage.size_bytes
        + d.frame_interpolation_model.usage.size_bytes + d.stt_models.usage.size_bytes
}

/// How many of the first `n` library items have a source path among `missing`.
pub open spec fn missing_items(items: Seq<MediaItem>, missing: Seq<Seq<char>>, n: nat) -> nat
    decreases n,
{
    if n == 0 {
        0
    } else {
        let p = items[n - 1].source_path@;
        missing_items(items, missing, (n - 1) as nat) + (if p.len() > 0 && missing.contains(p) {
            1nat
        } else {
            0
        })
    }
}

/// How many of the first `n` paths are among `missing`.
pub open spec fn missing_count(paths: Seq<Seq<char>>, missing: Seq<Seq<char>>, n: nat) -> nat
    decreases n,
{
    if n == 0 {
        0
    } else {
        missing_count(paths, missing, (n - 1) as nat) + (if missing.contains(paths[n - 1]) {
            1nat
        } else {
            0
        })
    }
}

/// The summaries of a health report, in its order.
pub open spec fn are_summaries(
    s: Seq<ProjectHealthPathSummary>,
    sidecars: ProxySidecarUsage,
    d: HealthDirectories,
) -> bool {
    let cache = ProjectHealthPathCategory::GeneratedCache;
    let model = ProjectHealthPathCategory::InstalledModel;
    &&& s.len() == (if d.prerender is Some {
        12int
    } else {
        11
    })
    &&& is_summary(
        s[0],
        ProjectHealthPathKind::ProxyLocal,
        cache,
        "Managed proxy cache"@,
        d.proxy_local,
        true,
    )
    &&& is_sidecar_summary(s[1], sidecars)
    &&& is_summary(
        s[2],
        ProjectHealthPathKind::BackgroundRemoval,
        cache,
        "Background removal cache"@,
        d.background_removal,
        true,
    )
    &&& is_summary(
        s[3],
        ProjectHealthPathKind::FrameInterpolation,
        cache,
        "Frame interpolation cache"@,
        d.frame_interpolation,
        true,
    )
    &&& is_summary(
        s[4],
        ProjectHealthPathKind::VoiceEnhancement,
        cache,
        "Voice enhancement cache"@,
        d.voice_enhancement,
        true,
    )
    &&& is_summary(
        s[5],
        ProjectHealthPathKind::ClipEmbeddings,
        cache,
        "Clip embedding cache"@,
        d.clip_embeddings,
        true,
    )
    &&& is_summary(
        s[6],
        ProjectHealthPathKind::AutoTags,
        cache,
        "Auto-tag cache"@,
        d.auto_tags,
        true,
    )
    &&& is_summary(
        s[7],
        ProjectHealthPathKind::ClipSearchModels,
        model,
        "Clip search models"@,
        d.clip_search_models,
        false,
    )
    &&& is_summary(
        s[8],
        ProjectHealthPathKind::BackgroundRemovalModel,
        model,
        "Background removal model"@,
        d.background_removal_model,
        false,
    )
    &&& is_summary(
        s[9],
        ProjectHealthPathKind::FrameInterpolationModel,
        model,
        "Frame interpolation model"@,
        d.frame_interpolation_model,
        false,
    )
    &&& is_summary(
        s[10],
        ProjectHealthPathKind::SttModel,
        model,
        "Speech-to-text models"@,
        d.stt_models,
        false,
    )
    &&& d.prerender is Some ==> is_summary(
        s[11],
        ProjectHealthPathKind::Prerender,
        cache,
        "Background prerender cache"@,
        d.prerender->Some_0,
        true,
    )
}

fn summarize_all(sidecars: &ProxySidecarUsage, d: &HealthDirectories) -> (r: Vec<
    ProjectHealthPathSummary,
>)
    ensures
        are_summaries(r@, *sidecars, *d),
{
    let cache = ProjectHealthPathCategory::GeneratedCache;
    let model = ProjectHealthPathCategory::InstalledModel;
    let mut r: Vec<ProjectHealthPathSummary> = Vec::new();
    r.push(
        summarize_path(
            ProjectHealthPathKind::ProxyLocal,
            cache,
            "Managed proxy cache",
            &d.proxy_local,
            true,
        ),
    );
    r.push(summarize_proxy_sidecars(sidecars));
    r.push(
        summarize_path(
            ProjectHealthPathKind::BackgroundRemoval,
            cache,
            "Background removal cache",
            &d.background_removal,
            true,
        ),
    );
    r.push(
        summarize_path(
            ProjectHealthPathKind::FrameInterpolation,
            cache,
            "Frame interpolation cache",
            &d.frame_interpolation,
            true,
        ),
    );
    r.push(
        summarize_path(
            ProjectHealthPathKind::VoiceEnhancement,
            cache,
            "Voice enhancement cache",
            &d.voice_enhancement,
            true,
        ),
    );
    r.push(
        summarize_path(
            ProjectHealthPathKind::ClipEmbeddings,
            cache,
            "Clip embedding cache",
            &d.clip_embeddings,
            true,
        ),
    );
    r.push(
        summarize_path(
            ProjectHealthPathKind::AutoTags,
            cache,
            "Auto-tag cache",
            &d.auto_tags,
            true,
        ),
    );
    r.push(
        summarize_path(
            ProjectHealthPathKind::ClipSearchModels,
            model,
            "Clip search models",
            &d.clip_search_models,
            false,
        ),
    );
    r.push(
        summarize_path(
            ProjectHealthPathKind::BackgroundRemovalModel,
            model,
            "Background removal model",
            &d.background_removal_model,
            false,
        ),
    );
    r.push(
        summarize_path(
            ProjectHealthPathKind::FrameInterpolationModel,
            model,
            "Frame interpolation model",
            &d.frame_interpolation_model,
            false,
        ),
    );
    r.push(
        summarize_path(
            ProjectHealthPathKind::SttModel,
            model,
            "Speech-to-text models",
            &d.stt_models,
            false,
        ),
    );
    if let Some(p) = &d.prerender {
        r.push(
            summarize_path(
                ProjectHealthPathKind::Prerender,
                cache,
                "Background prerender cache",
                p,
                true,
            ),
        );
    }
    r
}

fn sum_bytes(s: &Vec<ProjectHealthPathSummary>, category: ProjectHealthPathCategory) -> (r: u64)
    requires
        bytes_upto(s@, category, s@.len()) <= u64::MAX,
    ensures
        r == bytes_upto(s@, category, s@.len()),
{
    let mut total: u64 = 0;
    let mut i: usize = 0;
    while i < s.len()
        invariant
            i <= s@.len(),
            bytes_upto(s@, category, s@.len()) <= u64::MAX,
            total == bytes_upto(s@, category, i as nat),
        decreases s.len() - i,
    {
        proof {
            lemma_bytes_grow(s@, category, (i + 1) as nat, s@.len());
        }
        if s[i].category == category {
            total = total + s[i].size_bytes;
        }
        i = i + 1;
    }
    total
}

/// The bytes of the first `n` summaries of a category.
pub open spec fn bytes_upto(
    s: Seq<ProjectHealthPathSummary>,
    category: ProjectHealthPathCategory,
    n: nat,
) -> int
    decreases n,
{
    if n == 0 {
        0
    } else {
        bytes_upto(s, category, (n - 1) as nat) + (if s[n - 1].category == category {
            s[n - 1].size_bytes as int
        } else {
            0
        })
    }
}

proof fn lemma_bytes_grow(
    s: Seq<ProjectHealthPathSummary>,
    category: ProjectHealthPathCategory,
    k: nat,
    n: nat,
)
    requires
        k <= n,
    ensures
        bytes_upto(s, category, k) <= bytes_upto(s, category, n),
    decreases n,
{
    if k < n {
        lemma_bytes_grow(s, category, k, (n - 1) as nat);
    }
}

proof fn lemma_snapshot_bytes(
    s: Seq<ProjectHealthPathSummary>,
    sidecars: ProxySidecarUsage,
    d: HealthDirectories,
)
    requires
        are_summaries(s, sidecars, d),
    ensures
        bytes_upto(s, ProjectHealthPathCategory::GeneratedCache, s.len()) == cache_bytes(
            sidecars,
            d,
        ),
        bytes_upto(s, ProjectHealthPathCategory::InstalledModel, s.len()) == model_bytes(d),
{
    reveal_with_fuel(bytes_upto, 13);
}

/// Takes stock of a project: which sources are missing and what caches and models take up.
pub fn collect_snapshot(
    project: &Project,
    library: &Vec<MediaItem>,
    present: &StringSet,
    sidecars: &ProxySidecarUsage,
    directories: &HealthDirectories,
) -> (r: ProjectHealthSnapshot)
    requires
        present.wf(),
        cache_bytes(*sidecars, *directories) <= u64::MAX,
        model_bytes(*directories) <= u64::MAX,
    ensures
        ({
            let missing = missing_paths(*project, library@, present@);
            &&& views(r.offline_paths@) == missing
            &&& r.offline_project_source_count == missing_count(
                project_paths(*project),
                missing,
                project_paths(*project).len(),
            )
            &&& r.offline_library_item_count == missing_items(library@, missing, library@.len())
        }),
        are_summaries(r.paths@, *sidecars, *directories),
        r.generated_cache_bytes == cache_bytes(*sidecars, *directories),
        r.installed_model_bytes == model_bytes(*directories),
{
    let offline = missing_source_paths(project, library, present);
    let ghost missing = views(offline@);
    let own = collect_project_source_paths(project);
    let ghost pp = views(own@);
    let mut sources: usize = 0;
    let mut i: usize = 0;
    while i < own.len()
        invariant
            i <= own@.len(),
            pp == views(own@),
            missing == views(offline@),
            sources <= i,
            sources == missing_count(pp, missing, i as nat),
        decreases own.len() - i,
    {
        proof {
            assert(pp[i as int] == own@[i as int]@);
        }
        if crate::text::listed(&offline, &own[i]) {
            sources = sources + 1;
        }
        i = i + 1;
    }
    let mut items: usize = 0;
    let mut k: usize = 0;
    while k < library.len()
        invariant
            k <= library@.len(),
            missing == views(offline@),
            items <= k,
            items == missing_items(library@, missing, k as nat),
        decreases library.len() - k,
    {
        if !library[k].source_path.as_str().is_empty() && crate::text::listed(
            &offline,
            &library[k].source_path,
        ) {
            items = items + 1;
        }
        k = k + 1;
    }
    let paths = summarize_all(sidecars, directories);
    proof {
        lemma_snapshot_bytes(paths@, *sidecars, *directories);
        assert(pp.len() == own@.len());
    }
    let generated: u64 = sum_bytes(&paths, ProjectHealthPathCategory::GeneratedCache);
    let installed: u64 = sum_bytes(&paths, ProjectHealthPathCategory::InstalledModel);
    ProjectHealthSnapshot {
        offline_paths: offline,
        offline_project_source_count: sources,
        offline_library_item_count: items,
        paths,
        generated_cache_bytes: generated,
        installed_model_bytes: installed,
    }
}

// ------------------------------------------------------------ directory trees
/// A path on disk and what lies below it.
#[derive(Debug)]
pub enum FileTree {
    /// Nothing, or neither file nor directory.
    Absent,
    File { len: u64 },
    Directory { entries: Vec<FileTree> },
}

/// The number of files and of bytes in a tree.
pub open spec fn tree_usage(t: FileTree) -> (nat, nat)
    decreases t, 0nat,
{
    match t {
        FileTree::Absent => (0, 0),
        FileTree::File { len } => (1, len as nat),
        FileTree::Directory { entries } => entries_usage(entries@, entries@.len()),
    }
}

/// The number of files and of bytes in the first `n` trees.
pub open spec fn entries_usage(e: Seq<FileTree>, n: nat) -> (nat, nat)
    decreases e, n,
{
    if n == 0 || n > e.len() {
        (0, 0)
    } else {
        let front = entries_usage(e, (n - 1) as nat);
        let last = tree_usage(e[n - 1]);
        (front.0 + last.0, front.1 + last.1)
    }
}

proof fn lemma_entries_grow(e: Seq<FileTree>, k: nat, n: nat)
    requires
        k <= n <= e.len(),
    ensures
        entries_usage(e, k).0 <= entries_usage(e, n).0,
        entries_usage(e, k).1 <= entries_usage(e, n).1,
    decreases n,
{
    if k < n {
        lemma_entries_grow(e, k, (n - 1) as nat);
    }
}

/// Counts the files of a tree and their bytes.
pub fn directory_usage(tree: &FileTree) -> (r: DirectoryUsage)
    requires
        tree_usage(*tree).0 <= usize::MAX,
        tree_usage(*tree).1 <= u64::MAX,
    ensures
        (r.file_count as nat, r.size_bytes as nat) == tree_usage(*tree),
    decreases tree,
{
    match tree {
        FileTree::Absent => DirectoryUsage { file_count: 0, size_bytes: 0 },
        FileTree::File { len } => DirectoryUsage { file_count: 1, size_bytes: *len },
        FileTree::Directory { entries } => {
            let mut usage = DirectoryUsage { file_count: 0, size_bytes: 0 };
            let mut i: usize = 0;
            while i < entries.len()
                invariant
                    i <= entries@.len(),
                    *tree matches FileTree::Directory { entries: e } && e == entries,
                    entries_usage(entries@, entries@.len()).0 <= usize::MAX,
                    entries_usage(entries@, entries@.len()).1 <= u64::MAX,
                    (usage.file_count as nat, usage.size_bytes as nat) == entries_usage(
                        entries@,
                        i as nat,
                    ),
                decreases entries.len() - i,
            {
                proof {
                    lemma_entries_grow(entries@, (i + 1) as nat, entries@.len());
                }
                let child = directory_usage(&entries[i]);
                usage.file_count = usage.file_count + child.file_count;
                usage.size_bytes = usage.size_bytes + child.size_bytes;
                i = i + 1;
            }
            usage
        },
    }
}

/// What lies at a path that is to be emptied.
#[derive(Debug, Clone, Copy, PartialEq, Eq, Structural)]
pub enum PathState {
    Missing,
    Directory,
    Other,
}

/// How to empty a path.
#[derive(Debug, Clone, Copy, PartialEq, Eq, Structural)]
pub enum PurgeAction {
    CreateDirectory,
    RecreateDirectory,
    RemoveFile,
}

/// How to empty a path: a directory is left behind empty, a file is removed.
pub fn purge_path(state: PathState) -> (r: PurgeAction)
    ensures
        r == (match state {
            PathState::Missing => PurgeAction::CreateDirectory,
            PathState::Directory => PurgeAction::RecreateDirectory,
            PathState::Other => PurgeAction::RemoveFile,
        }),
{
    match state {
        PathState::Missing => PurgeAction::CreateDirectory,
        PathState::Directory => PurgeAction::RecreateDirectory,
        PathState::Other => PurgeAction::RemoveFile,
    }
}

/// The sources of library items are those of the items that have one, in order.
pub proof fn lemma_items_paths(items: Seq<MediaItem>, n: nat)
    requires
        n <= items.len(),
    ensures
        items_paths(items, n) == items.subrange(0, n as int).filter(
            |i: MediaItem| i.source_path@.len() > 0,
        ).map_values(|i: MediaItem| i.source_path@),
    decreases n,
{
    reveal(Seq::filter);
    let keep = |i: MediaItem| i.source_path@.len() > 0;
    let path = |i: MediaItem| i.source_path@;
    if n > 0 {
        lemma_items_paths(items, (n - 1) as nat);
        assert(items.subrange(0, n as int).drop_last() =~= items.subrange(0, n - 1));
        assert(items_paths(items, n) =~= items.subrange(0, n as int).filter(keep).map_values(path));
    } else {
        assert(items_paths(items, n) =~= items.subrange(0, n as int).filter(keep).map_values(path));
    }
}

/// The missing items are those whose source is missing.
pub proof fn lemma_missing_items(items: Seq<MediaItem>, missing: Seq<Seq<char>>, n: nat)
    requires
        n <= items.len(),
    ensures
        missing_items(items, missing, n) == items.subrange(0, n as int).filter(
            |i: MediaItem| i.source_path@.len() > 0 && missing.contains(i.source_path@),
        ).len(),
    decreases n,
{
    reveal(Seq::filter);
    if n > 0 {
        lemma_missing_items(items, missing, (n - 1) as nat);
        assert(items.subrange(0, n as int).drop_last() =~= items.subrange(0, n - 1));
    }
}

/// The missing sources of a project are those of its sources that are missing.
pub proof fn lemma_missing_count(paths: Seq<Seq<char>>, missing: Seq<Seq<char>>, n: nat)
    requires
        n <= paths.len(),
    ensures
        missing_count(paths, missing, n) == paths.subrange(0, n as int).filter(
            |p: Seq<char>| missing.contains(p),
        ).len(),
    decreases n,
{
    reveal(Seq::filter);
    if n > 0 {
        lemma_missing_count(paths, missing, (n - 1) as nat);
        assert(paths.subrange(0, n as int).drop_last() =~= paths.subrange(0, n - 1));
    }
}

/// Every cache counts in full among the bytes of caches, and every model among those of models.
pub proof fn lemma_all_bytes_count(sidecars: ProxySidecarUsage, d: HealthDirectories)
    ensures
        cache_bytes(sidecars, d) == (match d.prerender {
            Some(p) => p.usage.size_bytes as int,
            None => 0,
        }) + d.auto_tags.usage.size_bytes + d.clip_embeddings.usage.size_bytes
            + d.voice_enhancement.usage.size_bytes + d.frame_interpolation.usage.size_bytes
            + d.background_removal.usage.size_bytes + sidecars.size_bytes
            + d.proxy_local.usage.size_bytes,
        model_bytes(d) == d.stt_models.usage.size_bytes
            + d.frame_interpolation_model.usage.size_bytes
            + d.background_removal_model.usage.size_bytes + d.clip_search_models.usage.size_bytes,
{
}

/// A directory uses what its entries use: each file counts once, with its length.
pub proof fn lemma_usage(entries: Seq<FileTree>, n: nat, len: u64)
    requires
        0 < n <= entries.len(),
    ensures
        entries_usage(entries, n).0 == entries_usage(entries, (n - 1) as nat).0 + tree_usage(
            entries[n - 1],
        ).0,
        entries_usage(entries, n).1 == entries_usage(entries, (n - 1) as nat).1 + tree_usage(
            entries[n - 1],
        ).1,
        tree_usage(FileTree::File { len }) == (1nat, len as nat),
        tree_usage(FileTree::Absent) == (0nat, 0nat),
        entries_usage(entries, 0) == (0nat, 0nat),
{
}

/// Up to three directories are named; of more, the first three, with how many more there are.
pub proof fn lemma_sidecar_text(paths: Seq<Seq<char>>)
    ensures
        paths.len() == 1 ==> sidecar_text(paths) == paths[0],
        1 < paths.len() <= 3 ==> sidecar_text(paths) == sidecar_text(paths.drop_last()) + "\n"@
            + paths.last(),
        paths.len() > 3 ==> sidecar_text(paths) == sidecar_text(paths.subrange(0, 3)) + "\n"@
            + ("…and "@ + decimal((paths.len() - 3) as nat) + " more"@),
{
    if paths.len() > 3 {
        let three = paths.subrange(0, 3);
        let more = "…and "@ + decimal((paths.len() - 3) as nat) + " more"@;
        assert(three.push(more).drop_last() =~= three);
        assert(three.push(more).last() == more);
    }
}

} // verus!
