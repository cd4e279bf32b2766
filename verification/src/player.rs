//! The player of the source monitor: what it does at each request, and what it knows.
//!
//! The media pipeline runs outside the library. Each request tells what is to be done to it.

use crate::numbers::{Real, ONE_BITS};
use crate::text::{begins, begins_with, option_view, owned, same};
use vstd::prelude::*;
use vstd::string::*;

verus! {

/// What the player is doing.
#[derive(Debug, Clone, Copy, PartialEq, Eq, Structural)]
pub enum PlayerState {
    Stopped,
    Playing,
    Paused,
}

/// How sources are decoded.
#[derive(Debug, Clone, Copy, PartialEq, Eq, Structural)]
pub enum SourceDecodeMode {
    SoftwareFiltered,
    HardwareFast,
}

/// What matters in playback.
#[derive(Debug, Clone, Copy, PartialEq, Eq, Structural)]
pub enum PlaybackPriority {
    Smooth,
    Balanced,
    Accurate,
}

/// A decoder, with the rank that it had at first.
#[derive(Debug)]
pub struct DecoderRank {
    pub name: String,
    pub rank: i32,
}

/// The rank that a decoder gets.
#[derive(Debug, Clone, Copy, PartialEq, Eq, Structural)]
pub enum RankChoice {
    /// The rank that it had at first.
    Original(i32),
    /// A low rank.
    Marginal,
    /// It is never chosen.
    Disabled,
}

/// The rank to give to a decoder.
#[derive(Debug)]
pub struct RankSetting {
    pub name: String,
    pub rank: RankChoice,
}

/// A setting as text.
pub open spec fn setting_view(s: RankSetting) -> (Seq<char>, RankChoice) {
    (s.name@, s.rank)
}

/// Settings as text.
pub open spec fn setting_views(s: Seq<RankSetting>) -> Seq<(Seq<char>, RankChoice)> {
    s.map_values(|x: RankSetting| setting_view(x))
}

/// The ranks of decoders: their own, or a lower one.
pub open spec fn ranked(decoders: Seq<DecoderRank>, original: bool, lowered: RankChoice) -> Seq<
    (Seq<char>, RankChoice),
> {
    decoders.map_values(
        |d: DecoderRank|
            (
                d.name@,
                if original {
                    RankChoice::Original(d.rank)
                } else {
                    lowered
                },
            ),
    )
}

/// How the pipeline buffers and drops frames.
#[derive(Debug, Clone, Copy, PartialEq, Eq, Structural)]
pub struct SmoothnessPolicy {
    /// Frames in the queue.
    pub max_buffers: u32,
    /// Whether a full queue drops its oldest frame.
    pub leaky: bool,
    /// Whether late frames are dropped.
    pub drop_late: bool,
    /// How late a frame may be, in nanoseconds; below zero without limit.
    pub max_lateness_ns: i64,
}

/// The policy while playing or not, where accuracy matters most or not.
pub open spec fn policy_of(playing: bool, accurate: bool) -> SmoothnessPolicy {
    SmoothnessPolicy {
        max_buffers: if !playing {
            8
        } else if accurate {
            6
        } else {
            2
        },
        leaky: playing && !accurate,
        drop_late: playing && !accurate,
        max_lateness_ns: if playing && !accurate {
            20_000_000
        } else {
            (-1) as i64
        },
    }
}

/// What is to be done for a seek.
#[derive(Debug, Clone, Copy, PartialEq, Eq, Structural)]
pub enum SeekAction {
    /// The frame is shown already.
    Skip,
    /// Seek at once, to the frame or to the keyframe before it.
    Now { position_ns: u64, accurate: bool },
    /// The pipeline is busy; seek later. `arm` says whether to begin to wait.
    Later { arm: bool },
}

/// What seeking depends on.
pub struct SeekView {
    pub playing: bool,
    pub frame_ns: u64,
    pub last_frame: Option<u64>,
    pub waiting: Option<u64>,
    pub armed: bool,
    pub waiting_accurate: bool,
    pub accurate: bool,
}

/// The start of the frame at a position.
pub open spec fn frame_at(position: u64, frame_ns: u64) -> u64 {
    let f = if frame_ns < 1 {
        1
    } else {
        frame_ns as int
    };
    (position as int / f * f) as u64
}

/// A seek to the nearest keyframe, while the pipeline is busy or not.
pub open spec fn after_seek(s: SeekView, position: u64, busy: bool) -> (SeekView, SeekAction) {
    let frame = frame_at(position, s.frame_ns);
    if !s.playing && s.last_frame == Some(frame) {
        (s, SeekAction::Skip)
    } else {
        let t = SeekView {
            last_frame: if s.playing {
                None
            } else {
                Some(frame)
            },
            ..s
        };
        if busy {
            (
                SeekView {
                    waiting: Some(position),
                    waiting_accurate: false,
                    armed: true,
                    ..t
                },
                SeekAction::Later { arm: !s.armed },
            )
        } else {
            (t, SeekAction::Now { position_ns: position, accurate: s.accurate })
        }
    }
}

/// A seek to the very frame.
pub open spec fn after_accurate_seek(s: SeekView, position: u64, busy: bool) -> (
    SeekView,
    SeekAction,
) {
    let t = SeekView { last_frame: Some(frame_at(position, s.frame_ns)), ..s };
    if busy {
        (
            SeekView { waiting: Some(position), waiting_accurate: true, armed: true, ..t },
            SeekAction::Later { arm: !s.armed },
        )
    } else {
        (t, SeekAction::Now { position_ns: position, accurate: true })
    }
}

/// The seek that has waited, once the pipeline is at rest.
pub open spec fn after_dispatch(s: SeekView) -> (SeekView, Option<(u64, bool)>) {
    match s.waiting {
        Some(p) => (
            SeekView { waiting: None, armed: false, last_frame: None, ..s },
            Some((p, s.waiting_accurate || s.accurate)),
        ),
        None => (SeekView { armed: false, ..s }, None),
    }
}

/// A position is within the frame that it is taken to.
pub proof fn lemma_frame_at(position: u64, frame_ns: u64)
    requires
        frame_ns > 0,
    ensures
        frame_at(position, frame_ns) <= position < frame_at(position, frame_ns) + frame_ns,
        frame_at(frame_at(position, frame_ns), frame_ns) == frame_at(position, frame_ns),
{
    let p = position as int;
    let f = frame_ns as int;
    vstd::arithmetic::div_mod::lemma_fundamental_div_mod(p, f);
    vstd::arithmetic::div_mod::lemma_mod_bound(p, f);
    let q = p / f;
    assert(f * q == q * f) by (nonlinear_arith);
    assert(0 <= q * f) by (nonlinear_arith)
        requires
            0 <= q,
            0 < f,
    ;
    vstd::arithmetic::div_mod::lemma_fundamental_div_mod_converse(q * f, f, q, 0);
}

/// While it is not playing, a second seek to the same frame is skipped and changes nothing.
pub proof fn lemma_same_frame_is_skipped(s: SeekView, a: u64, b: u64, busy: bool, later_busy: bool)
    requires
        !s.playing,
        frame_at(a, s.frame_ns) == frame_at(b, s.frame_ns),
    ensures
        after_seek(after_seek(s, a, busy).0, b, later_busy) == (
            after_seek(s, a, busy).0,
            SeekAction::Skip,
        ),
{
}

/// Of the seeks that wait, only the last is made, and it is waited for once.
pub proof fn lemma_last_seek_counts(s: SeekView, a: u64, b: u64)
    requires
        s.playing,
    ensures
        after_seek(after_seek(s, a, true).0, b, true).1 == (SeekAction::Later { arm: false }),
        after_dispatch(after_seek(after_seek(s, a, true).0, b, true).0).1 == Some((b, s.accurate)),
        after_dispatch(after_seek(after_seek(s, a, true).0, b, true).0).0.waiting is None,
{
}

/// Where accuracy matters most, every seek is to the very frame.
pub proof fn lemma_accurate_seeks(s: SeekView, position: u64)
    requires
        s.accurate,
    ensures
        after_seek(s, position, false).1 matches SeekAction::Now { accurate, .. } ==> accurate,
        after_dispatch(s).1 matches Some(d) ==> d.1,
{
}

/// The player of the source monitor.
#[derive(Debug)]
pub struct Player {
    pub state: PlayerState,
    pub hardware_acceleration_enabled: bool,
    pub va_decoders: Vec<DecoderRank>,
    pub apple_decoders: Vec<DecoderRank>,
    pub decode_mode: SourceDecodeMode,
    pub current_uri: Option<String>,
    pub hw_failed_uri: Option<String>,
    pub source_playback_priority: PlaybackPriority,
    pub frame_duration_ns: u64,
    pub last_seeked_frame_pos: Option<u64>,
    pub pending_seek_ns: Option<u64>,
    pub pending_seek_active: bool,
    pub pending_seek_accurate: bool,
}

/// The bit pattern of 2.
pub const TWO_BITS: u64 = 0x4000_0000_0000_0000;

/// The bit pattern of 20.
pub const TWENTY_BITS: u64 = 0x4034_0000_0000_0000;

/// The bit pattern of -1.
pub const MINUS_ONE_BITS: u64 = 0xbff0_0000_0000_0000;

/// The bit pattern of -20.
pub const MINUS_TWENTY_BITS: u64 = 0xc034_0000_0000_0000;

/// The frame duration before a source tells its own.
pub const DEFAULT_FRAME_NS: u64 = 41_666_667;

/// The decoders whose ranks follow the mode.
pub fn va_decoder_names() -> (r: [&'static str; 6])
    ensures
        r@ == seq!["vah264dec", "vah265dec", "vampeg2dec", "vavp8dec", "vavp9dec", "vaav1dec"],
{
    ["vah264dec", "vah265dec", "vampeg2dec", "vavp8dec", "vavp9dec", "vaav1dec"]
}

/// How many threads convert or decode: half of those there are, from two to eight.
pub open spec fn threads_of(available: Option<u32>) -> int {
    let half = (match available {
        Some(n) => n as int,
        None => 4,
    }) / 2;
    if half < 2 {
        2
    } else if half > 8 {
        8
    } else {
        half
    }
}

/// `threads_of` what the machine has.
pub fn worker_threads(available: Option<u32>) -> (r: u32)
    ensures
        r == threads_of(available),
{
    let n: u32 = match available {
        Some(n) => n,
        None => 4,
    };
    let half: u32 = n / 2;
    if half < 2 {
        2
    } else if half > 8 {
        8
    } else {
        half
    }
}

/// Whether an element decodes in software and takes a number of threads.
pub fn is_software_decoder(factory_name: &str) -> (r: bool)
    ensures
        r == begins(factory_name@, "avdec_"@),
{
    begins_with(factory_name, "avdec_")
}

/// A number brought within bounds.
pub open spec fn within(n: int, low: int, high: int) -> int {
    if n < low {
        low
    } else if n > high {
        high
    } else {
        n
    }
}

fn clamp(n: i32, low: i32, high: i32) -> (r: i32)
    ensures
        r == within(n as int, low as int, high as int),
{
    if n < low {
        low
    } else if n > high {
        high
    } else {
        n
    }
}

/// How the picture is cropped, turned and flipped.
#[derive(Debug)]
pub struct Transform {
    pub left: i32,
    pub right: i32,
    pub top: i32,
    pub bottom: i32,
    pub rotate_method: &'static str,
    pub flip_method: &'static str,
}

/// The method of a turn by an angle.
pub open spec fn rotation_of(rotate: i32) -> Seq<char> {
    if rotate == 90 {
        "counterclockwise"@
    } else if rotate == -90 || rotate == 270 {
        "clockwise"@
    } else if rotate == 180 || rotate == -180 {
        "rotate-180"@
    } else {
        "none"@
    }
}

/// The method of a flip.
pub open spec fn flip_of(flip_h: bool, flip_v: bool) -> Seq<char> {
    if flip_h && flip_v {
        "rotate-180"@
    } else if flip_h {
        "horizontal-flip"@
    } else if flip_v {
        "vertical-flip"@
    } else {
        "none"@
    }
}

fn non_negative(n: i32) -> (r: i32)
    ensures
        r == (if n < 0 {
            0
        } else {
            n as int
        }),
{
    if n < 0 {
        0
    } else {
        n
    }
}

/// A source to load again after hardware decoding failed.
#[derive(Debug)]
pub struct Fallback {
    pub uri: String,
    pub ranks: Option<Vec<RankSetting>>,
}

/// The settings for a change of mode.
pub open spec fn change_view(r: Option<Vec<RankSetting>>) -> Option<Seq<(Seq<char>, RankChoice)>> {
    match r {
        Some(v) => Some(setting_views(v@)),
        None => None,
    }
}

fn push_ranks(out: &mut Vec<RankSetting>, decoders: &Vec<DecoderRank>, original: bool, lowered: RankChoice)
    ensures
        setting_views(final(out)@) == setting_views(old(out)@) + ranked(
            decoders@,
            original,
            lowered,
        ),
{
    let ghost before = setting_views(out@);
    let ghost want = ranked(decoders@, original, lowered);
    let mut i: usize = 0;
    proof {
        assert(setting_views(out@) =~= before + want.subrange(0, 0));
    }
    while i < decoders.len()
        invariant
            i <= decoders@.len(),
            want == ranked(decoders@, original, lowered),
            setting_views(out@) == before + want.subrange(0, i as int),
        decreases decoders.len() - i,
    {
        let ghost o = out@;
        let rank: RankChoice = if original {
            RankChoice::Original(decoders[i].rank)
        } else {
            lowered
        };
        let item = RankSetting { name: decoders[i].name.clone(), rank };
        let ghost v = setting_view(item);
        out.push(item);
        proof {
            assert(setting_views(out@) =~= setting_views(o).push(v));
            assert(want[i as int] == v);
            assert(want.subrange(0, i + 1) =~= want.subrange(0, i as int).push(v));
            assert(before + want.subrange(0, i + 1) =~= (before + want.subrange(0, i as int)).push(
                v,
            ));
        }
        i = i + 1;
    }
    proof {
        assert(want.subrange(0, i as int) =~= want);
    }
}

impl Player {
    /// What seeking depends on.
    pub open spec fn seeks(&self) -> SeekView {
        SeekView {
            playing: self.state == PlayerState::Playing,
            frame_ns: self.frame_duration_ns,
            last_frame: self.last_seeked_frame_pos,
            waiting: self.pending_seek_ns,
            armed: self.pending_seek_active,
            waiting_accurate: self.pending_seek_accurate,
            accurate: self.source_playback_priority == PlaybackPriority::Accurate,
        }
    }

    /// The player but for what seeking changes.
    pub open spec fn same_but_seeks(&self, other: Player) -> bool {
        *self == (Player {
            last_seeked_frame_pos: self.last_seeked_frame_pos,
            pending_seek_ns: self.pending_seek_ns,
            pending_seek_active: self.pending_seek_active,
            pending_seek_accurate: self.pending_seek_accurate,
            ..other
        })
    }

    /// The ranks of the decoders in a mode.
    pub open spec fn ranks_in(&self, mode: SourceDecodeMode) -> Seq<(Seq<char>, RankChoice)> {
        let fast = mode == SourceDecodeMode::HardwareFast;
        ranked(self.va_decoders@, fast, RankChoice::Marginal) + ranked(
            self.apple_decoders@,
            fast,
            RankChoice::Disabled,
        )
    }

    /// What a change to a mode asks for: nothing where the mode holds already.
    pub open spec fn change_to(&self, mode: SourceDecodeMode) -> Option<Seq<(Seq<char>, RankChoice)>> {
        if self.decode_mode == mode {
            None
        } else {
            Some(self.ranks_in(mode))
        }
    }

    /// A stopped player that decodes in software, with the decoders that were found, and the ranks
    /// that they get.
    pub fn new(
        hardware_acceleration_enabled: bool,
        va_decoders: Vec<DecoderRank>,
        apple_decoders: Vec<DecoderRank>,
    ) -> (r: (Player, Vec<RankSetting>))
        ensures
            r.0.state == PlayerState::Stopped,
            r.0.hardware_acceleration_enabled == hardware_acceleration_enabled,
            r.0.va_decoders == va_decoders,
            r.0.apple_decoders == apple_decoders,
            r.0.decode_mode == SourceDecodeMode::SoftwareFiltered,
            r.0.current_uri is None,
            r.0.hw_failed_uri is None,
            r.0.source_playback_priority == PlaybackPriority::Smooth,
            r.0.frame_duration_ns == DEFAULT_FRAME_NS,
            r.0.last_seeked_frame_pos is None,
            r.0.pending_seek_ns is None,
            !r.0.pending_seek_active,
            !r.0.pending_seek_accurate,
            setting_views(r.1@) == r.0.ranks_in(SourceDecodeMode::SoftwareFiltered),
    {
        let mut ranks: Vec<RankSetting> = Vec::new();
        push_ranks(&mut ranks, &va_decoders, false, RankChoice::Marginal);
        push_ranks(&mut ranks, &apple_decoders, false, RankChoice::Disabled);
        let player = Player {
            state: PlayerState::Stopped,
            hardware_acceleration_enabled,
            va_decoders,
            apple_decoders,
            decode_mode: SourceDecodeMode::SoftwareFiltered,
            current_uri: None,
            hw_failed_uri: None,
            source_playback_priority: PlaybackPriority::Smooth,
            frame_duration_ns: DEFAULT_FRAME_NS,
            last_seeked_frame_pos: None,
            pending_seek_ns: None,
            pending_seek_active: false,
            pending_seek_accurate: false,
        };
        proof {
            assert(setting_views(ranks@) =~= player.ranks_in(SourceDecodeMode::SoftwareFiltered));
        }
        (player, ranks)
    }

    /// Whether there are hardware decoders.
    pub fn vaapi_available(&self) -> (r: bool)
        ensures
            r == (self.va_decoders@.len() > 0),
    {
        self.va_decoders.len() > 0
    }

    /// What the player is doing.
    pub fn state(&self) -> (r: PlayerState)
        ensures
            r == self.state,
    {
        self.state
    }

    /// The source that was loaded last.
    pub fn current_uri(&self) -> (r: Option<String>)
        ensures
            option_view(r) == option_view(self.current_uri),
    {
        match &self.current_uri {
            Some(u) => Some(u.clone()),
            None => None,
        }
    }

    /// The name of the mode.
    pub fn decode_mode_name(&self) -> (r: &'static str)
        ensures
            r@ == (match self.decode_mode {
                SourceDecodeMode::SoftwareFiltered => "software_filtered"@,
                SourceDecodeMode::HardwareFast => "hardware_fast"@,
            }),
    {
        match self.decode_mode {
            SourceDecodeMode::SoftwareFiltered => "software_filtered",
            SourceDecodeMode::HardwareFast => "hardware_fast",
        }
    }

    /// Whether accuracy matters most.
    fn prefers_accuracy(&self) -> (r: bool)
        ensures
            r == (self.source_playback_priority == PlaybackPriority::Accurate),
    {
        match self.source_playback_priority {
            PlaybackPriority::Accurate => true,
            _ => false,
        }
    }

    /// How the pipeline buffers and drops frames while playing or not.
    pub fn smoothness_policy(&self, playing: bool) -> (r: SmoothnessPolicy)
        ensures
            r == policy_of(playing, self.seeks().accurate),
    {
        let accurate: bool = self.prefers_accuracy();
        let drop_late: bool = playing && !accurate;
        let max_buffers: u32 = if !playing {
            8
        } else if accurate {
            6
        } else {
            2
        };
        SmoothnessPolicy {
            max_buffers,
            leaky: drop_late,
            drop_late,
            max_lateness_ns: if drop_late {
                20_000_000
            } else {
                -1
            },
        }
    }

    /// The mode for a source: in hardware where that is wanted, can be had and has not failed for
    /// this source.
    pub open spec fn mode_for(&self, uri: Seq<char>) -> SourceDecodeMode {
        if self.hardware_acceleration_enabled && self.va_decoders@.len() > 0 && option_view(
            self.hw_failed_uri,
        ) != Some(uri) {
            SourceDecodeMode::HardwareFast
        } else {
            SourceDecodeMode::SoftwareFiltered
        }
    }

    /// `mode_for` a source.
    pub fn preferred_mode_for_uri(&self, uri: &str) -> (r: SourceDecodeMode)
        ensures
            r == self.mode_for(uri@),
    {
        if !self.hardware_acceleration_enabled || self.va_decoders.len() == 0 {
            return SourceDecodeMode::SoftwareFiltered;
        }
        if let Some(failed) = &self.hw_failed_uri {
            if same(failed, uri) {
                return SourceDecodeMode::SoftwareFiltered;
            }
        }
        SourceDecodeMode::HardwareFast
    }

    /// Changes to a mode. Returns the ranks that the decoders get, unless the mode holds already.
    pub fn apply_decode_mode(&mut self, mode: SourceDecodeMode) -> (r: Option<Vec<RankSetting>>)
        ensures
            change_view(r) == old(self).change_to(mode),
            *final(self) == (Player { decode_mode: mode, ..*old(self) }),
    {
        if self.decode_mode == mode {
            return None;
        }
        let fast: bool = match mode {
            SourceDecodeMode::HardwareFast => true,
            SourceDecodeMode::SoftwareFiltered => false,
        };
        let mut ranks: Vec<RankSetting> = Vec::new();
        push_ranks(&mut ranks, &self.va_decoders, fast, RankChoice::Marginal);
        push_ranks(&mut ranks, &self.apple_decoders, fast, RankChoice::Disabled);
        proof {
            assert(setting_views(ranks@) =~= self.ranks_in(mode));
        }
        self.decode_mode = mode;
        Some(ranks)
    }

    /// Begins to load a source. Returns the ranks that the decoders get for it, if they change.
    pub fn load(&mut self, uri: &str) -> (r: Option<Vec<RankSetting>>)
        ensures
            change_view(r) == old(self).change_to(old(self).mode_for(uri@)),
            option_view(final(self).current_uri) == Some(uri@),
            final(self).last_seeked_frame_pos is None,
            final(self).decode_mode == old(self).mode_for(uri@),
            *final(self) == (Player {
                current_uri: final(self).current_uri,
                last_seeked_frame_pos: None,
                decode_mode: final(self).decode_mode,
                ..*old(self)
            }),
    {
        self.current_uri = Some(owned(uri));
        self.last_seeked_frame_pos = None;
        let mode = self.preferred_mode_for_uri(uri);
        self.apply_decode_mode(mode)
    }

    /// Notes that the source has been loaded: the player is paused.
    pub fn loaded(&mut self) -> (r: SmoothnessPolicy)
        ensures
            r == policy_of(false, old(self).seeks().accurate),
            *final(self) == (Player { state: PlayerState::Paused, ..*old(self) }),
    {
        self.state = PlayerState::Paused;
        self.smoothness_policy(false)
    }

    /// Plays.
    pub fn play(&mut self) -> (r: SmoothnessPolicy)
        ensures
            r == policy_of(true, old(self).seeks().accurate),
            *final(self) == (Player { state: PlayerState::Playing, ..*old(self) }),
    {
        self.state = PlayerState::Playing;
        self.smoothness_policy(true)
    }

    /// Pauses.
    pub fn pause(&mut self) -> (r: SmoothnessPolicy)
        ensures
            r == policy_of(false, old(self).seeks().accurate),
            *final(self) == (Player { state: PlayerState::Paused, ..*old(self) }),
    {
        self.state = PlayerState::Paused;
        self.smoothness_policy(false)
    }

    /// Stops. The pipeline is paused, so that its picture stays.
    pub fn stop(&mut self) -> (r: SmoothnessPolicy)
        ensures
            r == policy_of(false, old(self).seeks().accurate),
            *final(self) == (Player { state: PlayerState::Stopped, ..*old(self) }),
    {
        self.state = PlayerState::Stopped;
        self.smoothness_policy(false)
    }

    /// Pauses while playing, and plays else.
    pub fn toggle_play_pause(&mut self) -> (r: SmoothnessPolicy)
        ensures
            ({
                let playing = old(self).state == PlayerState::Playing;
                &&& r == policy_of(!playing, old(self).seeks().accurate)
                &&& *final(self) == (Player {
                    state: if playing {
                        PlayerState::Paused
                    } else {
                        PlayerState::Playing
                    },
                    ..*old(self)
                })
            }),
    {
        match self.state {
            PlayerState::Playing => self.pause(),
            _ => self.play(),
        }
    }

    /// Says whether hardware decoding is wanted. The mode stays as it is.
    pub fn set_hardware_acceleration(&mut self, enabled: bool)
        ensures
            *final(self) == (Player { hardware_acceleration_enabled: enabled, ..*old(self) }),
    {
        self.hardware_acceleration_enabled = enabled;
    }

    /// Says what matters in playback.
    pub fn set_source_playback_priority(&mut self, priority: PlaybackPriority) -> (r:
        SmoothnessPolicy)
        ensures
            *final(self) == (Player { source_playback_priority: priority, ..*old(self) }),
            r == policy_of(
                old(self).state == PlayerState::Playing,
                priority == PlaybackPriority::Accurate,
            ),
    {
        self.source_playback_priority = priority;
        let playing: bool = self.state == PlayerState::Playing;
        self.smoothness_policy(playing)
    }

    /// Says how long a frame of the source is, at least one nanosecond.
    pub fn set_source_frame_duration(&mut self, frame_duration_ns: u64)
        ensures
            *final(self) == (Player {
                frame_duration_ns: if frame_duration_ns < 1 {
                    1
                } else {
                    frame_duration_ns
                },
                ..*old(self)
            }),
    {
        self.frame_duration_ns =
        if frame_duration_ns < 1 {
            1
        } else {
            frame_duration_ns
        };
    }

    fn frame_start(&self, position_ns: u64) -> (r: u64)
        ensures
            r == frame_at(position_ns, self.frame_duration_ns),
    {
        let f: u64 = if self.frame_duration_ns < 1 {
            1
        } else {
            self.frame_duration_ns
        };
        proof {
            lemma_frame_at(position_ns, f);
            let q = position_ns as int / f as int;
            assert(q * f <= position_ns) by {
                vstd::arithmetic::div_mod::lemma_fundamental_div_mod(position_ns as int, f as int);
                assert(f * q == q * f) by (nonlinear_arith);
            }
        }
        position_ns / f * f
    }

    /// Seeks, to the nearest keyframe unless accuracy matters most. A seek to the frame that is
    /// shown is skipped while the player is not playing.
    pub fn seek(&mut self, position_ns: u64, busy: bool) -> (r: SeekAction)
        ensures
            (final(self).seeks(), r) == after_seek(old(self).seeks(), position_ns, busy),
            final(self).same_but_seeks(*old(self)),
    {
        let playing: bool = self.state == PlayerState::Playing;
        if !playing {
            let frame: u64 = self.frame_start(position_ns);
            if let Some(last) = self.last_seeked_frame_pos {
                if last == frame {
                    return SeekAction::Skip;
                }
            }
            self.last_seeked_frame_pos = Some(frame);
        } else {
            self.last_seeked_frame_pos = None;
        }
        if busy {
            let arm: bool = !self.pending_seek_active;
            self.pending_seek_ns = Some(position_ns);
            self.pending_seek_accurate = false;
            self.pending_seek_active = true;
            return SeekAction::Later { arm };
        }
        SeekAction::Now { position_ns, accurate: self.prefers_accuracy() }
    }

    /// Seeks to the very frame.
    pub fn seek_accurate(&mut self, position_ns: u64, busy: bool) -> (r: SeekAction)
        ensures
            (final(self).seeks(), r) == after_accurate_seek(old(self).seeks(), position_ns, busy),
            final(self).same_but_seeks(*old(self)),
    {
        self.last_seeked_frame_pos = Some(self.frame_start(position_ns));
        if busy {
            let arm: bool = !self.pending_seek_active;
            self.pending_seek_ns = Some(position_ns);
            self.pending_seek_accurate = true;
            self.pending_seek_active = true;
            return SeekAction::Later { arm };
        }
        SeekAction::Now { position_ns, accurate: true }
    }

    /// The seek that has waited, with whether it is to the very frame. To be asked once the
    /// pipeline is at rest.
    pub fn dispatch_pending_seek(&mut self) -> (r: Option<(u64, bool)>)
        ensures
            (final(self).seeks(), r) == after_dispatch(old(self).seeks()),
            final(self).same_but_seeks(*old(self)),
    {
        self.pending_seek_active = false;
        match self.pending_seek_ns {
            Some(p) => {
                self.pending_seek_ns = None;
                self.last_seeked_frame_pos = None;
                Some((p, self.pending_seek_accurate || self.prefers_accuracy()))
            },
            None => None,
        }
    }

    /// Steps one frame forward, not beyond the end. Returns the new position and what is to be
    /// done.
    pub fn step_forward(&mut self, position_ns: u64, duration_ns: u64, frame_duration_ns: u64, busy: bool) -> (r:
        (u64, SeekAction))
        requires
            position_ns + frame_duration_ns <= u64::MAX,
        ensures
            r.0 == (if position_ns + frame_duration_ns < duration_ns {
                position_ns + frame_duration_ns
            } else {
                duration_ns as int
            }),
            (final(self).seeks(), r.1) == after_accurate_seek(old(self).seeks(), r.0, busy),
            final(self).same_but_seeks(*old(self)),
    {
        let next: u64 = position_ns + frame_duration_ns;
        let target: u64 = if next < duration_ns {
            next
        } else {
            duration_ns
        };
        let action = self.seek_accurate(target, busy);
        (target, action)
    }

    /// Steps one frame backward, not before the start.
    pub fn step_backward(&mut self, position_ns: u64, frame_duration_ns: u64, busy: bool) -> (r: (
        u64,
        SeekAction,
    ))
        ensures
            r.0 == (if position_ns > frame_duration_ns {
                position_ns - frame_duration_ns
            } else {
                0
            }),
            (final(self).seeks(), r.1) == after_accurate_seek(old(self).seeks(), r.0, busy),
            final(self).same_but_seeks(*old(self)),
    {
        let target: u64 = position_ns.saturating_sub(frame_duration_ns);
        let action = self.seek_accurate(target, busy);
        (target, action)
    }

    /// The size to which frames are scaled down for a widget.
    pub fn set_prescale_resolution(&self, width: i32, height: i32) -> (r: (i32, i32))
        ensures
            r.0 == within(width as int, 160, 1920),
            r.1 == within(height as int, 90, 1080),
    {
        (clamp(width, 160, 1920), clamp(height, 90, 1080))
    }

    /// The brightness, contrast and saturation of the picture, within what the pipeline takes: -1 to
    /// 1 for the first and 0 to 2 for the others.
    pub fn set_color(&self, brightness: Real, contrast: Real, saturation: Real) -> (r: (
        Real,
        Real,
        Real,
    ))
        ensures
            r.0 == brightness.within(Real { bits: MINUS_ONE_BITS }, Real { bits: ONE_BITS }),
            r.1 == contrast.within(Real { bits: 0 }, Real { bits: TWO_BITS }),
            r.2 == saturation.within(Real { bits: 0 }, Real { bits: TWO_BITS }),
    {
        let zero = Real { bits: 0 };
        let two = Real { bits: TWO_BITS };
        (
            brightness.clamp(Real { bits: MINUS_ONE_BITS }, Real { bits: ONE_BITS }),
            contrast.clamp(zero, two),
            saturation.clamp(zero, two),
        )
    }

    /// The width of the blur, positive where it softens and negative where it sharpens, within -20
    /// to 20.
    pub fn set_denoise_sharpness(&self, sigma: Real) -> (r: Real)
        ensures
            r == sigma.within(Real { bits: MINUS_TWENTY_BITS }, Real { bits: TWENTY_BITS }),
    {
        sigma.clamp(Real { bits: MINUS_TWENTY_BITS }, Real { bits: TWENTY_BITS })
    }

    /// The settings for a crop, a turn and a flip. A crop below zero counts as none.
    pub fn set_transform(
        &self,
        crop_left: i32,
        crop_right: i32,
        crop_top: i32,
        crop_bottom: i32,
        rotate: i32,
        flip_h: bool,
        flip_v: bool,
    ) -> (r: Transform)
        ensures
            r.left == within(crop_left as int, 0, i32::MAX as int),
            r.right == within(crop_right as int, 0, i32::MAX as int),
            r.top == within(crop_top as int, 0, i32::MAX as int),
            r.bottom == within(crop_bottom as int, 0, i32::MAX as int),
            r.rotate_method@ == rotation_of(rotate),
            r.flip_method@ == flip_of(flip_h, flip_v),
    {
        let rotate_method = if rotate == 90 {
            "counterclockwise"
        } else if rotate == -90 || rotate == 270 {
            "clockwise"
        } else if rotate == 180 || rotate == -180 {
            "rotate-180"
        } else {
            "none"
        };
        let flip_method = if flip_h && flip_v {
            "rotate-180"
        } else if flip_h {
            "horizontal-flip"
        } else if flip_v {
            "vertical-flip"
        } else {
            "none"
        };
        Transform {
            left: non_negative(crop_left),
            right: non_negative(crop_right),
            top: non_negative(crop_top),
            bottom: non_negative(crop_bottom),
            rotate_method,
            flip_method,
        }
    }

    /// After an error, gives hardware decoding up for the source. Returns the source to load again
    /// in software; there is none where it was decoded in software already, or where none was
    /// loaded.
    pub fn fallback_to_software_after_error(&mut self) -> (r: Option<Fallback>)
        ensures
            r is Some <==> old(self).decode_mode == SourceDecodeMode::HardwareFast && old(
                self,
            ).current_uri is Some,
            match r {
                Some(f) => {
                    &&& f.uri@ == old(self).current_uri->Some_0@
                    &&& change_view(f.ranks) == old(self).change_to(
                        SourceDecodeMode::SoftwareFiltered,
                    )
                    &&& option_view(final(self).hw_failed_uri) == Some(f.uri@)
                    &&& *final(self) == (Player {
                        hw_failed_uri: final(self).hw_failed_uri,
                        decode_mode: SourceDecodeMode::SoftwareFiltered,
                        ..*old(self)
                    })
                },
                None => *final(self) == *old(self),
            },
    {
        if self.decode_mode != SourceDecodeMode::HardwareFast {
            return None;
        }
        let uri: String = match &self.current_uri {
            Some(u) => u.clone(),
            None => {
                return None;
            },
        };
        self.hw_failed_uri = Some(uri.clone());
        let ranks = self.apply_decode_mode(SourceDecodeMode::SoftwareFiltered);
        Some(Fallback { uri, ranks })
    }

    /// Notes that the source has been loaded again: the player goes on playing where it was, and is
    /// paused else.
    pub fn reloaded(&mut self) -> (r: SmoothnessPolicy)
        ensures
            r == policy_of(old(self).state == PlayerState::Playing, old(self).seeks().accurate),
            *final(self) == (Player {
                state: if old(self).state == PlayerState::Playing {
                    PlayerState::Playing
                } else {
                    PlayerState::Paused
                },
                ..*old(self)
            }),
    {
        if self.state == PlayerState::Playing {
            self.smoothness_policy(true)
        } else {
            self.loaded()
        }
    }
}

/// Once hardware decoding was given up for a source, that source is decoded in software.
pub proof fn lemma_failed_source_stays_in_software(p: Player, uri: Seq<char>)
    requires
        option_view(p.hw_failed_uri) == Some(uri),
    ensures
        p.mode_for(uri) == SourceDecodeMode::SoftwareFiltered,
{
}

/// A seek that is not skipped is made where it was asked for: at once where the pipeline is at rest,
/// and else as the one that waits.
pub proof fn lemma_seek_goes_where_asked(s: SeekView, position: u64)
    requires
        s.playing || s.last_frame != Some(frame_at(position, s.frame_ns)),
    ensures
        after_seek(s, position, false).1 == (SeekAction::Now {
            position_ns: position,
            accurate: s.accurate,
        }),
        after_seek(s, position, false).0.waiting == s.waiting,
        after_dispatch(after_seek(s, position, true).0).1 == Some((position, s.accurate)),
        after_seek(s, position, true).1 == (SeekAction::Later { arm: !s.armed }),
{
}

/// A seek to the very frame is always made where it was asked for, to the very frame.
pub proof fn lemma_accurate_seek_goes_where_asked(s: SeekView, position: u64)
    ensures
        after_accurate_seek(s, position, false).1 == (SeekAction::Now {
            position_ns: position,
            accurate: true,
        }),
        after_dispatch(after_accurate_seek(s, position, true).0).1 == Some((position, true)),
{
}

/// Once the waiting seek was made, none waits.
pub proof fn lemma_dispatch_empties(s: SeekView)
    ensures
        after_dispatch(s).1 is Some <==> s.waiting is Some,
        after_dispatch(after_dispatch(s).0).1 is None,
        !after_dispatch(s).0.armed,
{
}

/// Frames are dropped only in smooth playback, and only there is lateness limited. Playing holds
/// fewer frames than not playing, and smooth playback fewer than accurate.
pub proof fn lemma_policy(playing: bool, accurate: bool)
    ensures
        policy_of(playing, accurate).drop_late <==> playing && !accurate,
        policy_of(playing, accurate).leaky <==> playing && !accurate,
        policy_of(playing, accurate).max_lateness_ns < 0 <==> !(playing && !accurate),
        policy_of(false, true) == policy_of(false, false),
        0 < policy_of(true, false).max_buffers < policy_of(true, true).max_buffers < policy_of(
            false,
            accurate,
        ).max_buffers,
{
}

/// Half of the threads there are work, at least two and at most eight of them.
pub proof fn lemma_threads(available: u32)
    ensures
        2 <= threads_of(Some(available)) <= 8,
        4 <= available <= 17 ==> available - 1 <= 2 * threads_of(Some(available)) <= available,
        threads_of(None) == threads_of(Some(4u32)),
{
}

/// In hardware mode every decoder has its own rank. In software mode none has: those of the first
/// kind are ranked low, those of the second are never chosen.
pub proof fn lemma_ranks(p: Player, i: int)
    ensures
        p.ranks_in(SourceDecodeMode::HardwareFast).len() == p.va_decoders@.len()
            + p.apple_decoders@.len(),
        p.ranks_in(SourceDecodeMode::SoftwareFiltered).len() == p.va_decoders@.len()
            + p.apple_decoders@.len(),
        0 <= i < p.va_decoders@.len() ==> p.ranks_in(SourceDecodeMode::HardwareFast)[i] == (
            p.va_decoders@[i].name@,
            RankChoice::Original(p.va_decoders@[i].rank),
        ) && p.ranks_in(SourceDecodeMode::SoftwareFiltered)[i] == (
            p.va_decoders@[i].name@,
            RankChoice::Marginal,
        ),
        0 <= i < p.apple_decoders@.len() ==> p.ranks_in(
            SourceDecodeMode::HardwareFast,
        )[p.va_decoders@.len() + i] == (
            p.apple_decoders@[i].name@,
            RankChoice::Original(p.apple_decoders@[i].rank),
        ) && p.ranks_in(SourceDecodeMode::SoftwareFiltered)[p.va_decoders@.len() + i] == (
            p.apple_decoders@[i].name@,
            RankChoice::Disabled,
        ),
{
}

/// Turns to the left and to the right differ, and a turn either way by half is one; flipping both
/// ways is that turn.
pub proof fn lemma_turns(rotate: i32)
    ensures
        rotation_of((-90) as i32) == rotation_of(270),
        rotation_of(180) == rotation_of((-180) as i32),
        rotation_of(180) == flip_of(true, true),
        rotation_of(90) != rotation_of((-90) as i32),
        flip_of(true, false) != flip_of(false, true),
        rotate != 90 && rotate != -90 && rotate != 270 && rotate != 180 && rotate != -180
            ==> rotation_of(rotate) == flip_of(false, false),
{
    reveal_strlit("counterclockwise");
    reveal_strlit("clockwise");
    reveal_strlit("horizontal-flip");
    reveal_strlit("vertical-flip");
    assert("counterclockwise"@.len() != "clockwise"@.len());
    assert("horizontal-flip"@.len() != "vertical-flip"@.len());
}

/// A source is decoded in hardware where that is wanted, can be had and has not failed for it.
pub proof fn lemma_mode_for(p: Player, uri: Seq<char>)
    ensures
        p.mode_for(uri) == SourceDecodeMode::HardwareFast <==> p.hardware_acceleration_enabled
            && p.va_decoders@.len() > 0 && option_view(p.hw_failed_uri) != Some(uri),
        p.mode_for(uri) == SourceDecodeMode::SoftwareFiltered <==> !(
        p.hardware_acceleration_enabled && p.va_decoders@.len() > 0 && option_view(p.hw_failed_uri)
            != Some(uri)),
{
}

/// Ranks are changed only where the mode does.
pub proof fn lemma_change_to(p: Player, mode: SourceDecodeMode)
    ensures
        p.change_to(mode) is Some <==> p.decode_mode != mode,
        p.change_to(mode) matches Some(r) ==> r == p.ranks_in(mode),
{
}

} // verus!
