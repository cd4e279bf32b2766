//! Recording a voice over the timeline.

use crate::ids::{fresh_id, is_uuid};
use crate::model::Clip;
use crate::paths::{join, join_path};
use crate::text::{decimal, escape, escaped, owned, push_decimal, replace_char, replaced};
use vstd::prelude::*;
use vstd::string::*;

verus! {

/// What a recorder is doing.
#[derive(Debug)]
pub enum RecorderState {
    Idle,
    Recording { start_position_ns: u64, file_path: String },
    Finished { file_path: String, duration_ns: u64, start_position_ns: u64 },
    Error(String),
}

/// What a recorder is doing, as text.
pub enum RecorderView {
    Idle,
    Recording { start_position_ns: u64, file_path: Seq<char> },
    Finished { file_path: Seq<char>, duration_ns: u64, start_position_ns: u64 },
    Error(Seq<char>),
}

impl RecorderState {
    pub open spec fn view(&self) -> RecorderView {
        match *self {
            RecorderState::Idle => RecorderView::Idle,
            RecorderState::Recording { start_position_ns, file_path } => RecorderView::Recording {
                start_position_ns,
                file_path: file_path@,
            },
            RecorderState::Finished { file_path, duration_ns, start_position_ns } =>
                RecorderView::Finished { file_path: file_path@, duration_ns, start_position_ns },
            RecorderState::Error(e) => RecorderView::Error(e@),
        }
    }
}

/// Where the sound comes from: a device, with its path where it has one, or the default of the
/// system, with or without the sound server.
#[derive(Debug)]
pub enum CaptureSource {
    Device(Option<String>),
    Default { sound_server: bool },
}

/// The element that the sound comes from.
pub open spec fn source_element(source: CaptureSource) -> Seq<char> {
    match source {
        CaptureSource::Device(Some(path)) => "pulsesrc device=\""@ + replace_char(
            path@,
            '"',
            "\\\""@,
        ) + "\""@,
        CaptureSource::Device(None) => "autoaudiosrc"@,
        CaptureSource::Default { sound_server } => if sound_server {
            "pulsesrc"@
        } else {
            "autoaudiosrc"@
        },
    }
}

/// The pipeline that records to a file.
pub open spec fn recording_pipeline(source: CaptureSource, mono: bool, file_path: Seq<char>) -> Seq<
    char,
> {
    source_element(source)
        + " ! audioconvert ! audioresample ! audio/x-raw,format=S16LE,rate=48000,channels="@ + (
    if mono {
        "1"@
    } else {
        "2"@
    }) + " ! wavenc ! filesink location=\""@ + escaped(file_path, "\\\""@) + "\""@
}

/// `source_element` of a source.
pub fn source_name(source: &CaptureSource) -> (r: String)
    ensures
        r@ == source_element(*source),
{
    match source {
        CaptureSource::Device(Some(path)) => {
            let mut r = owned("pulsesrc device=\"");
            r.append(&replaced(path, '"', "\\\""));
            r.append("\"");
            r
        },
        CaptureSource::Device(None) => owned("autoaudiosrc"),
        CaptureSource::Default { sound_server } => if *sound_server {
            owned("pulsesrc")
        } else {
            owned("autoaudiosrc")
        },
    }
}

/// `recording_pipeline` of a source and a file.
pub fn launch_description(source: &CaptureSource, mono: bool, file_path: &str) -> (r: String)
    ensures
        r@ == recording_pipeline(*source, mono, file_path@),
{
    let mut r = source_name(source);
    r.append(" ! audioconvert ! audioresample ! audio/x-raw,format=S16LE,rate=48000,channels=");
    if mono {
        r.append("1");
    } else {
        r.append("2");
    }
    r.append(" ! wavenc ! filesink location=\"");
    r.append(&escape(file_path, "\\\""));
    r.append("\"");
    r
}

/// A recording that can be started.
#[derive(Debug)]
pub struct RecordingPlan {
    pub file_path: String,
    pub launch: String,
}

/// A file of a recording: a name of its own in the directory.
pub open spec fn is_recording_file(path: Seq<char>, dir: Seq<char>) -> bool {
    exists|id: Seq<char>| #[trigger]
        is_uuid(id) && path == join_path(dir, "voiceover_"@ + id + ".wav"@)
}

/// The largest file without any sound: the header alone.
pub const WAV_HEADER_BYTES: u64 = 44;

/// What is said of a file without sound.
pub open spec fn no_sound(file_size: nat) -> Seq<char> {
    "No audio data captured (file size "@ + decimal(file_size)
        + " bytes). Check microphone permissions."@
}

/// Records a voice.
#[derive(Debug)]
pub struct VoiceoverRecorder {
    pub state: RecorderState,
}

impl VoiceoverRecorder {
    pub open spec fn view(&self) -> RecorderView {
        self.state@
    }

    /// An idle recorder.
    pub fn new() -> (r: VoiceoverRecorder)
        ensures
            r@ == RecorderView::Idle,
    {
        VoiceoverRecorder { state: RecorderState::Idle }
    }

    /// What the recorder is doing.
    pub fn state(&self) -> (r: &RecorderState)
        ensures
            r@ == self@,
    {
        &self.state
    }

    /// Whether the recorder is recording.
    pub fn is_recording(&self) -> (r: bool)
        ensures
            r == (self@ is Recording),
    {
        matches!(self.state, RecorderState::Recording { .. })
    }

    /// Plans a recording into a new file of the directory. There is none while another runs.
    pub fn plan_recording(&self, dir: &str, source: &CaptureSource, mono: bool) -> (r: Result<
        RecordingPlan,
        String,
    >)
        ensures
            match r {
                Ok(p) => !(self@ is Recording) && is_recording_file(p.file_path@, dir@)
                    && p.launch@ == recording_pipeline(*source, mono, p.file_path@),
                Err(e) => self@ is Recording && e@ == "Already recording"@,
            },
    {
        if self.is_recording() {
            return Err(owned("Already recording"));
        }
        let id = fresh_id();
        let mut name = owned("voiceover_");
        name.append(&id);
        name.append(".wav");
        let file_path = join(dir, &name);
        proof {
            assert(is_uuid(id@));
        }
        let launch = launch_description(source, mono, &file_path);
        Ok(RecordingPlan { file_path, launch })
    }

    /// Notes that the recording at a position of the timeline runs. Where one ran already, nothing
    /// changes.
    pub fn start_recording(&mut self, start_position_ns: u64, file_path: &str) -> (r: Result<
        String,
        String,
    >)
        ensures
            match r {
                Ok(p) => !(old(self)@ is Recording) && p@ == file_path@ && final(self)@
                    == (RecorderView::Recording { start_position_ns, file_path: file_path@ }),
                Err(e) => old(self)@ is Recording && e@ == "Already recording"@ && *final(self)
                    == *old(self),
            },
    {
        if self.is_recording() {
            return Err(owned("Already recording"));
        }
        self.state = RecorderState::Recording { start_position_ns, file_path: owned(file_path) };
        Ok(owned(file_path))
    }

    /// Notes that the recording has been stopped, with the size of its file and its duration.
    /// Returns its file, its duration and where it starts.
    pub fn stop_recording(&mut self, file_size: u64, duration_ns: u64) -> (r: Result<
        (String, u64, u64),
        String,
    >)
        ensures
            match old(self)@ {
                RecorderView::Recording { start_position_ns, file_path } => {
                    if file_size <= WAV_HEADER_BYTES {
                        &&& r matches Err(e) && e@ == no_sound(file_size as nat)
                        &&& final(self)@ == RecorderView::Error("No audio data captured"@)
                    } else if duration_ns == 0 {
                        &&& r matches Err(e) && e@ == "Recording produced zero-length audio"@
                        &&& final(self)@ == RecorderView::Error(
                            "Recording produced zero-length audio"@,
                        )
                    } else {
                        &&& r matches Ok(t) && t.0@ == file_path && t.1 == duration_ns && t.2
                            == start_position_ns
                        &&& final(self)@ == (RecorderView::Finished {
                            file_path,
                            duration_ns,
                            start_position_ns,
                        })
                    }
                },
                _ => (r matches Err(e) && e@ == "Not recording"@) && *final(self) == *old(self),
            },
    {
        let (start_position_ns, file_path) = match &self.state {
            RecorderState::Recording { start_position_ns, file_path } => (
                *start_position_ns,
                file_path.clone(),
            ),
            _ => {
                return Err(owned("Not recording"));
            },
        };
        if file_size <= WAV_HEADER_BYTES {
            self.state = RecorderState::Error(owned("No audio data captured"));
            let mut e = owned("No audio data captured (file size ");
            push_decimal(&mut e, file_size);
            e.append(" bytes). Check microphone permissions.");
            return Err(e);
        }
        if duration_ns == 0 {
            self.state = RecorderState::Error(owned("Recording produced zero-length audio"));
            return Err(owned("Recording produced zero-length audio"));
        }
        self.state =
        RecorderState::Finished { file_path: file_path.clone(), duration_ns, start_position_ns };
        Ok((file_path, duration_ns, start_position_ns))
    }

    /// Gives up. Returns the file to remove where a recording ran.
    pub fn cancel(&mut self) -> (r: Option<String>)
        ensures
            final(self)@ == RecorderView::Idle,
            match old(self)@ {
                RecorderView::Recording { file_path, .. } => r matches Some(p) && p@ == file_path,
                _ => r is None,
            },
    {
        let r = match &self.state {
            RecorderState::Recording { file_path, .. } => Some(file_path.clone()),
            _ => None,
        };
        self.state = RecorderState::Idle;
        r
    }

    /// Makes the recorder idle.
    pub fn reset(&mut self)
        ensures
            final(self)@ == RecorderView::Idle,
    {
        self.state = RecorderState::Idle;
    }
}

/// A value from the environment; an empty one counts as none.
pub open spec fn set_value(v: Option<String>) -> Option<Seq<char>> {
    match v {
        Some(s) => if s@.len() > 0 {
            Some(s@)
        } else {
            None
        },
        None => None,
    }
}

/// The directory of the recordings.
pub open spec fn recordings_dir(data_home: Option<Seq<char>>, home: Option<Seq<char>>) -> Seq<char> {
    match data_home {
        Some(d) => join_path(join_path(d, "ultimateslice"@), "voiceovers"@),
        None => match home {
            Some(h) => join_path(h, ".local/share/ultimateslice/voiceovers"@),
            None => "/tmp/ultimateslice/voiceovers"@,
        },
    }
}

fn is_set(v: &Option<String>) -> (r: bool)
    ensures
        r == (set_value(*v) is Some),
{
    match v {
        Some(s) => !s.as_str().is_empty(),
        None => false,
    }
}

/// The directory of the recordings, from the environment.
pub fn voiceover_cache_dir(data_home: &Option<String>, home: &Option<String>) -> (r: String)
    ensures
        r@ == recordings_dir(set_value(*data_home), set_value(*home)),
{
    if is_set(data_home) {
        if let Some(d) = data_home {
            return join(&join(d, "ultimateslice"), "voiceovers");
        }
    }
    if is_set(home) {
        if let Some(h) = home {
            return join(h, ".local/share/ultimateslice/voiceovers");
        }
    }
    owned("/tmp/ultimateslice/voiceovers")
}

/// The end of a clip on the timeline.
pub open spec fn end_of(c: Clip) -> int {
    c.timeline_start + c.duration_spec()
}

/// Whether something at `start` of the given length overlaps the clip.
pub open spec fn overlaps(c: Clip, start: int, duration: int) -> bool {
    start < end_of(c) && start + duration > c.timeline_start
}

/// Whether something at `start` of the given length overlaps none of the clips.
pub open spec fn is_free(clips: Seq<Clip>, start: int, duration: int) -> bool {
    forall|i: int| 0 <= i < clips.len() ==> !overlaps(#[trigger] clips[i], start, duration)
}

/// Whether there is a free position from `start` on that leaves room for the length.
pub open spec fn has_room(clips: Seq<Clip>, start: int, duration: int) -> bool {
    exists|p: int|
        start <= p && p + duration <= u64::MAX && #[trigger] is_free(clips, p, duration)
}

/// The first position at or after `start_ns` at which something of the given length overlaps none
/// of the clips.
pub fn find_non_overlapping_start(clips: &Vec<Clip>, start_ns: u64, duration_ns: u64) -> (r: u64)
    requires
        forall|i: int| 0 <= i < clips@.len() ==> end_of(#[trigger] clips@[i]) <= u64::MAX,
        has_room(clips@, start_ns as int, duration_ns as int),
    ensures
        r >= start_ns,
        is_free(clips@, r as int, duration_ns as int),
        forall|p: int|
            start_ns <= p < r ==> !#[trigger] is_free(clips@, p, duration_ns as int),
    decreases u64::MAX - start_ns,
{
    let ghost duration = duration_ns as int;
    let ghost room = choose|p: int|
        start_ns <= p && p + duration <= u64::MAX && #[trigger] is_free(clips@, p, duration);
    let end_ns: u64 = start_ns + duration_ns;
    let mut i: usize = 0;
    while i < clips.len()
        invariant
            i <= clips@.len(),
            duration == duration_ns,
            end_ns == start_ns + duration_ns,
            forall|k: int| 0 <= k < clips@.len() ==> end_of(#[trigger] clips@[k]) <= u64::MAX,
            start_ns <= room,
            room + duration <= u64::MAX,
            is_free(clips@, room, duration),
            forall|k: int|
                0 <= k < i ==> !overlaps(#[trigger] clips@[k], start_ns as int, duration),
        decreases clips.len() - i,
    {
        proof {
            assert(end_of(clips@[i as int]) <= u64::MAX);
        }
        let clip_end: u64 = clips[i].timeline_start + clips[i].duration();
        if start_ns < clip_end && end_ns > clips[i].timeline_start {
            proof {
                // Whatever begins before the end of this clip overlaps it.
                assert(!overlaps(clips@[i as int], room, duration));
                assert(clip_end <= room);
                assert(has_room(clips@, clip_end as int, duration));
            }
            let r = find_non_overlapping_start(clips, clip_end, duration_ns);
            proof {
                assert forall|p: int| start_ns <= p < r implies !#[trigger] is_free(
                    clips@,
                    p,
                    duration,
                ) by {
                    if p < clip_end {
                        assert(overlaps(clips@[i as int], p, duration));
                    }
                }
            }
            return r;
        }
        i = i + 1;
    }
    start_ns
}

/// A free position stays: looking again from where a place was found leads to the same place.
pub proof fn lemma_free_start_stays(clips: Seq<Clip>, duration: int, found: int, again: int)
    requires
        is_free(clips, found, duration),
        again >= found,
        is_free(clips, again, duration),
        forall|p: int| found <= p < again ==> !#[trigger] is_free(clips, p, duration),
    ensures
        again == found,
{
}

/// Something overlaps a clip where they share a moment.
pub proof fn lemma_overlaps_is_shared_moment(c: Clip, start: int, duration: int)
    requires
        duration > 0,
        c.duration_spec() > 0,
    ensures
        overlaps(c, start, duration) <==> exists|t: int|
            #![trigger is_during(t, start, duration)]
            is_during(t, start, duration) && c.timeline_start <= t < c.timeline_start
                + c.duration_spec(),
{
    if overlaps(c, start, duration) {
        let t = if start >= c.timeline_start {
            start
        } else {
            c.timeline_start as int
        };
        assert(is_during(t, start, duration));
    }
}

/// Whether a moment lies in a stretch of time.
pub open spec fn is_during(t: int, start: int, duration: int) -> bool {
    start <= t < start + duration
}

/// A device is recorded from by its path; without one the sound server or the default source is.
pub proof fn lemma_sources_of_sound(path: String)
    ensures
        !path@.contains('"') ==> source_element(CaptureSource::Device(Some(path)))
            == "pulsesrc device=\""@ + path@ + "\""@,
        source_element(CaptureSource::Device(None)) == source_element(
            CaptureSource::Default { sound_server: false },
        ),
        source_element(CaptureSource::Default { sound_server: true }) != source_element(
            CaptureSource::Default { sound_server: false },
        ),
{
    if !path@.contains('"') {
        lemma_nothing_to_replace(path@, '"', "\\\""@);
    }
    reveal_strlit("pulsesrc");
    reveal_strlit("autoaudiosrc");
    assert("pulsesrc"@.len() != "autoaudiosrc"@.len());
}

proof fn lemma_nothing_to_replace(s: Seq<char>, c: char, by: Seq<char>)
    requires
        !s.contains(c),
    ensures
        replace_char(s, c, by) == s,
    decreases s.len(),
{
    if s.len() > 0 {
        let front = s.drop_last();
        assert(s.contains(s[s.len() - 1]));
        assert forall|k: int| 0 <= k < front.len() implies front[k] != c by {
            assert(s.contains(s[k]));
        }
        lemma_nothing_to_replace(front, c, by);
        assert(front.push(s.last()) =~= s);
    } else {
        assert(replace_char(s, c, by) =~= s);
    }
}

/// Sound is recorded as sixteen bits at 48 kHz, on one channel or two, to the file that is named.
pub proof fn lemma_recording_pipeline(source: CaptureSource, file: Seq<char>)
    ensures
        recording_pipeline(source, true, file) == source_element(source)
            + " ! audioconvert ! audioresample ! audio/x-raw,format=S16LE,rate=48000,channels="@
            + "1"@ + " ! wavenc ! filesink location=\""@ + escaped(file, "\\\""@) + "\""@,
        recording_pipeline(source, false, file) == source_element(source)
            + " ! audioconvert ! audioresample ! audio/x-raw,format=S16LE,rate=48000,channels="@
            + "2"@ + " ! wavenc ! filesink location=\""@ + escaped(file, "\\\""@) + "\""@,
{
}

} // verus!
