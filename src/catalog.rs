use vstd::prelude::*;

verus! {

/// The kind of media a track carries.
#[derive(Clone, Copy, Debug, PartialEq, Eq, Structural)]
pub enum TrackType {
    Video,
    Audio,
    Data,
}

impl TrackType {
    /// The lower-case name of the kind, as it appears in a catalog.
    pub fn as_str(&self) -> (r: &'static str)
        ensures
            r@ == track_type_name(*self),
    {
        match self {
            TrackType::Video => "video",
            TrackType::Audio => "audio",
            TrackType::Data => "data",
        }
    }
}

pub open spec fn track_type_name(t: TrackType) -> Seq<char> {
    match t {
        TrackType::Video => "video"@,
        TrackType::Audio => "audio"@,
        TrackType::Data => "data"@,
    }
}

/// The application-declared identity of a track.
#[derive(Clone, Debug)]
pub struct TrackDefinition {
    pub name: String,
    pub priority: u32,
    pub track_type: TrackType,
}

impl TrackDefinition {
    pub fn new(name: &str, priority: u32, track_type: TrackType) -> (r: Self)
        ensures
            r.name@ == name@,
            r.priority == priority,
            r.track_type == track_type,
    {
        TrackDefinition { name: name.to_string(), priority, track_type }
    }

    /// A copy of this definition.
    pub fn duplicate(&self) -> (r: Self)
        ensures
            r == *self,
    {
        TrackDefinition { name: self.name.clone(), priority: self.priority, track_type: self.track_type }
    }

    pub fn video(name: &str, priority: u32) -> (r: Self)
        ensures
            r.name@ == name@,
            r.priority == priority,
            r.track_type == TrackType::Video,
    {
        Self::new(name, priority, TrackType::Video)
    }

    pub fn audio(name: &str, priority: u32) -> (r: Self)
        ensures
            r.name@ == name@,
            r.priority == priority,
            r.track_type == TrackType::Audio,
    {
        Self::new(name, priority, TrackType::Audio)
    }

    pub fn data(name: &str, priority: u32) -> (r: Self)
        ensures
            r.name@ == name@,
            r.priority == priority,
            r.track_type == TrackType::Data,
    {
        Self::new(name, priority, TrackType::Data)
    }
}


/// The reserved name of the track that carries the catalog itself.
pub const CATALOG_TRACK: &'static str = "catalog.json";

pub open spec fn catalog_track_name() -> Seq<char> {
    "catalog.json"@
}

/// Tests whether a name is the reserved catalog track name.
pub fn is_catalog_track(name: &str) -> (r: bool)
    ensures
        r == (name@ == catalog_track_name()),
{
    let a = name.to_string();
    let b = CATALOG_TRACK.to_string();
    proof {
        reveal_strlit("catalog.json");
    }
    a == b
}

/// Tests two strings for equality.
pub fn same_text(a: &str, b: &str) -> (r: bool)
    ensures
        r == (a@ == b@),
{
    let x = a.to_string();
    let y = b.to_string();
    x == y
}

/// Which of the two catalog formats, if any, a session uses.
#[derive(Clone, Copy, Debug, PartialEq, Eq, Structural)]
pub enum CatalogType {
    NoCatalog,
    Sesame,
    Hang,
}

/// One entry of a flat catalog.
#[derive(Clone, Debug)]
pub struct SesameCatalogTrack {
    pub track_type: TrackType,
    pub track_name: String,
    pub priority: u32,
}

/// The flat catalog format: an ordered list of track records.
#[derive(Clone, Debug)]
pub struct SesameCatalog {
    pub tracks: Vec<SesameCatalogTrack>,
}

/// The flat record that a track definition becomes.
pub open spec fn describes(e: SesameCatalogTrack, d: TrackDefinition) -> bool {
    &&& e.track_type == d.track_type
    &&& e.track_name@ == d.name@
    &&& e.priority == d.priority
}

/// Whether a name is listed in a flat catalog.
pub open spec fn flat_lists(tracks: Seq<SesameCatalogTrack>, name: Seq<char>) -> bool {
    exists|i: int| 0 <= i < tracks.len() && (#[trigger] tracks[i]).track_name@ == name
}

impl SesameCatalogTrack {
    pub fn from_definition(def: &TrackDefinition) -> (r: Self)
        ensures
            describes(r, *def),
    {
        SesameCatalogTrack {
            track_type: def.track_type,
            track_name: def.name.clone(),
            priority: def.priority,
        }
    }
}

impl SesameCatalog {
    /// One record per definition, in the order given.
    pub fn from_tracks(tracks: &[TrackDefinition]) -> (r: Self)
        ensures
            r.tracks@.len() == tracks@.len(),
            forall|i: int| 0 <= i < tracks@.len() ==> describes(#[trigger] r.tracks@[i], tracks@[i]),
    {
        let mut out: Vec<SesameCatalogTrack> = Vec::new();
        let mut i: usize = 0;
        while i < tracks.len()
            invariant
                i <= tracks@.len(),
                out@.len() == i,
                forall|j: int| 0 <= j < i ==> describes(#[trigger] out@[j], tracks@[j]),
            decreases tracks@.len() - i,
        {
            out.push(SesameCatalogTrack::from_definition(&tracks[i]));
            i = i + 1;
        }
        SesameCatalog { tracks: out }
    }

    /// The first record whose track name is `name`.
    pub fn find_track(&self, name: &str) -> (r: Option<&SesameCatalogTrack>)
        ensures
            r.is_some() == flat_lists(self.tracks@, name@),
            r matches Some(t) ==> exists|i: int|
                0 <= i < self.tracks@.len() && self.tracks@[i] == *t && t.track_name@ == name@
                    && forall|j: int| 0 <= j < i ==> (#[trigger] self.tracks@[j]).track_name@ != name@,
    {
        let mut i: usize = 0;
        while i < self.tracks.len()
            invariant
                i <= self.tracks@.len(),
                forall|j: int| 0 <= j < i ==> (#[trigger] self.tracks@[j]).track_name@ != name@,
            decreases self.tracks@.len() - i,
        {
            if same_text(self.tracks[i].track_name.as_str(), name) {
                return Some(&self.tracks[i]);
            }
            i = i + 1;
        }
        None
    }
}


/// Video decoder configuration of one rendition. The frame rate is in whole
/// frames per second.
#[derive(Clone, Debug)]
pub struct HangVideoConfig {
    pub codec: String,
    pub description: Option<String>,
    pub coded_width: Option<u32>,
    pub coded_height: Option<u32>,
    pub display_ratio_width: Option<u32>,
    pub display_ratio_height: Option<u32>,
    pub bitrate: Option<u64>,
    pub framerate: Option<u32>,
    pub optimize_for_latency: Option<bool>,
}

/// Audio decoder configuration of one rendition.
#[derive(Clone, Debug)]
pub struct HangAudioConfig {
    pub codec: String,
    pub sample_rate: u32,
    pub channel_count: u32,
    pub bitrate: Option<u64>,
    pub description: Option<String>,
}

/// A named video rendition.
#[derive(Clone, Debug)]
pub struct HangVideoRendition {
    pub name: String,
    pub config: HangVideoConfig,
}

/// A named audio rendition.
#[derive(Clone, Debug)]
pub struct HangAudioRendition {
    pub name: String,
    pub config: HangAudioConfig,
}

/// Display size.
#[derive(Clone, Copy, Debug)]
pub struct HangDisplay {
    pub width: u32,
    pub height: u32,
}

/// The video section: renditions by name, with a group priority. The
/// rotation is in whole degrees.
#[derive(Clone, Debug)]
pub struct HangVideo {
    pub renditions: Vec<HangVideoRendition>,
    pub priority: u8,
    pub display: Option<HangDisplay>,
    pub rotation: Option<i32>,
    pub flip: Option<bool>,
}

/// The audio section: renditions by name, with a group priority.
#[derive(Clone, Debug)]
pub struct HangAudio {
    pub renditions: Vec<HangAudioRendition>,
    pub priority: u8,
}

/// Location track for spatial positioning.
#[derive(Clone, Debug)]
pub struct HangLocation {
    pub track: String,
    pub priority: u8,
}

/// Metadata of the broadcaster.
#[derive(Clone, Debug)]
pub struct HangUser {
    pub name: Option<String>,
    pub avatar: Option<String>,
}

/// Chat track reference.
#[derive(Clone, Debug)]
pub struct HangChat {
    pub track: String,
    pub priority: u8,
}

/// Generic track reference.
#[derive(Clone, Debug)]
pub struct HangTrack {
    pub name: String,
    pub priority: u8,
}

/// The grouped catalog format.
#[derive(Clone, Debug)]
pub struct HangCatalog {
    pub video: Option<HangVideo>,
    pub audio: Option<HangAudio>,
    pub location: Option<HangLocation>,
    pub user: Option<HangUser>,
    pub chat: Option<HangChat>,
    pub preview: Option<HangTrack>,
}

pub open spec fn video_named(rs: Seq<HangVideoRendition>, name: Seq<char>) -> bool {
    exists|i: int| 0 <= i < rs.len() && (#[trigger] rs[i]).name@ == name
}

pub open spec fn audio_named(rs: Seq<HangAudioRendition>, name: Seq<char>) -> bool {
    exists|i: int| 0 <= i < rs.len() && (#[trigger] rs[i]).name@ == name
}

/// No two video renditions share a name.
pub open spec fn video_names_unique(rs: Seq<HangVideoRendition>) -> bool {
    forall|i: int, j: int| 0 <= i < rs.len() && 0 <= j < rs.len() && i != j ==> #[trigger] rs[i].name@ != #[trigger] rs[j].name@
}

/// No two audio renditions share a name.
pub open spec fn audio_names_unique(rs: Seq<HangAudioRendition>) -> bool {
    forall|i: int, j: int| 0 <= i < rs.len() && 0 <= j < rs.len() && i != j ==> #[trigger] rs[i].name@ != #[trigger] rs[j].name@
}

/// `new` holds the renditions of `old`, with the one named `name` set to `c`.
pub open spec fn video_put(old: Seq<HangVideoRendition>, new: Seq<HangVideoRendition>, name: Seq<char>, c: HangVideoConfig) -> bool {
    &&& forall|n: Seq<char>| video_named(new, n) <==> (video_named(old, n) || n == name)
    &&& forall|j: int| 0 <= j < new.len() && (#[trigger] new[j]).name@ == name ==> new[j].config == c
    &&& forall|j: int| 0 <= j < new.len() && (#[trigger] new[j]).name@ != name ==> old.contains(new[j])
}

/// `new` holds the renditions of `old`, with the one named `name` set to `c`.
pub open spec fn audio_put(old: Seq<HangAudioRendition>, new: Seq<HangAudioRendition>, name: Seq<char>, c: HangAudioConfig) -> bool {
    &&& forall|n: Seq<char>| audio_named(new, n) <==> (audio_named(old, n) || n == name)
    &&& forall|j: int| 0 <= j < new.len() && (#[trigger] new[j]).name@ == name ==> new[j].config == c
    &&& forall|j: int| 0 <= j < new.len() && (#[trigger] new[j]).name@ != name ==> old.contains(new[j])
}

/// Sets the video rendition named `name` to `config`, adding it if absent.
fn put_video_rendition(rs: &mut Vec<HangVideoRendition>, name: String, config: HangVideoConfig)
    requires
        video_names_unique(old(rs)@),
    ensures
        video_names_unique(final(rs)@),
        video_put(old(rs)@, final(rs)@, name@, config),
{
    let ghost name_v = name@;
    let mut i: usize = 0;
    while i < rs.len()
        invariant
            i <= rs@.len(),
            forall|j: int| 0 <= j < i ==> (#[trigger] rs@[j]).name@ != name_v,
            rs@ == old(rs)@,
            name_v == name@,
            video_names_unique(rs@),
        decreases rs@.len() - i,
    {
        if same_text(rs[i].name.as_str(), name.as_str()) {
            let ghost before = rs@;
            let entry = HangVideoRendition { name, config };
            rs.set(i, entry);
            proof {
                assert(rs@[i as int].name@ == name_v);
                assert forall|j: int| 0 <= j < rs@.len() implies (#[trigger] rs@[j]).name@ == before[j].name@ by {
                    if j != i {
                        assert(rs@[j] == before[j]);
                    }
                }
                assert forall|n: Seq<char>| video_named(rs@, n) <==> (video_named(before, n) || n == name_v) by {
                    if video_named(before, n) {
                        let k = choose|k: int| 0 <= k < before.len() && (#[trigger] before[k]).name@ == n;
                        assert(rs@[k].name@ == n);
                    }
                    if video_named(rs@, n) {
                        let k = choose|k: int| 0 <= k < rs@.len() && (#[trigger] rs@[k]).name@ == n;
                        if k != i {
                            assert(before[k].name@ == n);
                        }
                    }
                }
                assert forall|j: int| 0 <= j < rs@.len() && (#[trigger] rs@[j]).name@ != name_v implies before.contains(rs@[j]) by {
                    assert(j != i);
                    assert(before[j] == rs@[j]);
                }
            }
            return;
        }
        i = i + 1;
    }
    let ghost before = rs@;
    rs.push(HangVideoRendition { name, config });
    proof {
        assert forall|j: int| 0 <= j < before.len() implies (#[trigger] rs@[j]) == before[j] by {}
        assert(rs@[before.len() as int].name@ == name_v);
        assert forall|n: Seq<char>| video_named(rs@, n) <==> (video_named(before, n) || n == name_v) by {
            if video_named(before, n) {
                let k = choose|k: int| 0 <= k < before.len() && (#[trigger] before[k]).name@ == n;
                assert(rs@[k].name@ == n);
            }
            if n == name_v {
                assert(rs@[before.len() as int].name@ == n);
            }
            if video_named(rs@, n) {
                let k = choose|k: int| 0 <= k < rs@.len() && (#[trigger] rs@[k]).name@ == n;
                if k < before.len() {
                    assert(before[k].name@ == n);
                }
            }
        }
        assert forall|j: int| 0 <= j < rs@.len() && (#[trigger] rs@[j]).name@ != name_v implies before.contains(rs@[j]) by {
            assert(before[j] == rs@[j]);
        }
    }
}

/// Sets the audio rendition named `name` to `config`, adding it if absent.
fn put_audio_rendition(rs: &mut Vec<HangAudioRendition>, name: String, config: HangAudioConfig)
    requires
        audio_names_unique(old(rs)@),
    ensures
        audio_names_unique(final(rs)@),
        audio_put(old(rs)@, final(rs)@, name@, config),
{
    let ghost name_v = name@;
    let mut i: usize = 0;
    while i < rs.len()
        invariant
            i <= rs@.len(),
            forall|j: int| 0 <= j < i ==> (#[trigger] rs@[j]).name@ != name_v,
            rs@ == old(rs)@,
            name_v == name@,
            audio_names_unique(rs@),
        decreases rs@.len() - i,
    {
        if same_text(rs[i].name.as_str(), name.as_str()) {
            let ghost before = rs@;
            let entry = HangAudioRendition { name, config };
            rs.set(i, entry);
            proof {
                assert(rs@[i as int].name@ == name_v);
                assert forall|j: int| 0 <= j < rs@.len() implies (#[trigger] rs@[j]).name@ == before[j].name@ by {
                    if j != i {
                        assert(rs@[j] == before[j]);
                    }
                }
                assert forall|n: Seq<char>| audio_named(rs@, n) <==> (audio_named(before, n) || n == name_v) by {
                    if audio_named(before, n) {
                        let k = choose|k: int| 0 <= k < before.len() && (#[trigger] before[k]).name@ == n;
                        assert(rs@[k].name@ == n);
                    }
                    if audio_named(rs@, n) {
                        let k = choose|k: int| 0 <= k < rs@.len() && (#[trigger] rs@[k]).name@ == n;
                        if k != i {
                            assert(before[k].name@ == n);
                        }
                    }
                }
                assert forall|j: int| 0 <= j < rs@.len() && (#[trigger] rs@[j]).name@ != name_v implies before.contains(rs@[j]) by {
                    assert(j != i);
                    assert(before[j] == rs@[j]);
                }
            }
            return;
        }
        i = i + 1;
    }
    let ghost before = rs@;
    rs.push(HangAudioRendition { name, config });
    proof {
        assert forall|j: int| 0 <= j < before.len() implies (#[trigger] rs@[j]) == before[j] by {}
        assert(rs@[before.len() as int].name@ == name_v);
        assert forall|n: Seq<char>| audio_named(rs@, n) <==> (audio_named(before, n) || n == name_v) by {
            if audio_named(before, n) {
                let k = choose|k: int| 0 <= k < before.len() && (#[trigger] before[k]).name@ == n;
                assert(rs@[k].name@ == n);
            }
            if n == name_v {
                assert(rs@[before.len() as int].name@ == n);
            }
            if audio_named(rs@, n) {
                let k = choose|k: int| 0 <= k < rs@.len() && (#[trigger] rs@[k]).name@ == n;
                if k < before.len() {
                    assert(before[k].name@ == n);
                }
            }
        }
        assert forall|j: int| 0 <= j < rs@.len() && (#[trigger] rs@[j]).name@ != name_v implies before.contains(rs@[j]) by {
            assert(before[j] == rs@[j]);
        }
    }
}


/// The default video configuration of a rendition made from a track
/// definition: H.264 baseline, 1280x720 at 30 frames per second, 2 Mbit/s,
/// tuned for latency.
pub open spec fn is_default_video_config(c: HangVideoConfig) -> bool {
    &&& c.codec@ == "avc1.42001e"@
    &&& c.description is None
    &&& c.coded_width == Some(1280u32)
    &&& c.coded_height == Some(720u32)
    &&& c.display_ratio_width is None
    &&& c.display_ratio_height is None
    &&& c.bitrate == Some(2_000_000u64)
    &&& c.framerate == Some(30u32)
    &&& c.optimize_for_latency == Some(true)
}

/// The default audio configuration of a rendition made from a track
/// definition: Opus, 48 kHz stereo, 128 kbit/s.
pub open spec fn is_default_audio_config(c: HangAudioConfig) -> bool {
    &&& c.codec@ == "opus"@
    &&& c.sample_rate == 48000
    &&& c.channel_count == 2
    &&& c.bitrate == Some(128_000u64)
    &&& c.description is None
}

pub fn default_video_config() -> (r: HangVideoConfig)
    ensures
        is_default_video_config(r),
{
    HangVideoConfig {
        codec: "avc1.42001e".to_string(),
        description: None,
        coded_width: Some(1280),
        coded_height: Some(720),
        display_ratio_width: None,
        display_ratio_height: None,
        bitrate: Some(2_000_000),
        framerate: Some(30),
        optimize_for_latency: Some(true),
    }
}

pub fn default_audio_config() -> (r: HangAudioConfig)
    ensures
        is_default_audio_config(r),
{
    HangAudioConfig {
        codec: "opus".to_string(),
        sample_rate: 48000,
        channel_count: 2,
        bitrate: Some(128_000),
        description: None,
    }
}

pub open spec fn is_video(d: TrackDefinition) -> bool {
    d.track_type == TrackType::Video
}

pub open spec fn is_audio(d: TrackDefinition) -> bool {
    d.track_type == TrackType::Audio
}

/// A data track other than the catalog track: it fills the preview slot.
pub open spec fn is_preview_source(d: TrackDefinition) -> bool {
    d.track_type == TrackType::Data && d.name@ != catalog_track_name()
}

/// The index of the last definition that satisfies `p`, or -1.
pub open spec fn last_where(ts: Seq<TrackDefinition>, p: spec_fn(TrackDefinition) -> bool) -> int
    decreases ts.len(),
{
    if ts.len() == 0 {
        -1
    } else if p(ts.last()) {
        ts.len() - 1
    } else {
        last_where(ts.drop_last(), p)
    }
}

/// Some definition that satisfies `p` is named `n`.
pub open spec fn some_named(ts: Seq<TrackDefinition>, p: spec_fn(TrackDefinition) -> bool, n: Seq<char>) -> bool {
    exists|i: int| 0 <= i < ts.len() && p(#[trigger] ts[i]) && ts[i].name@ == n
}

proof fn lemma_last_where_bounds(ts: Seq<TrackDefinition>, p: spec_fn(TrackDefinition) -> bool)
    ensures
        -1 <= last_where(ts, p) < ts.len(),
        last_where(ts, p) >= 0 ==> p(ts[last_where(ts, p)]),
        last_where(ts, p) < 0 <==> forall|i: int| 0 <= i < ts.len() ==> !p(#[trigger] ts[i]),
        forall|j: int| 0 <= j < ts.len() && p(#[trigger] ts[j]) ==> j <= last_where(ts, p),
    decreases ts.len(),
{
    if ts.len() > 0 {
        let d = ts.drop_last();
        lemma_last_where_bounds(d, p);
        assert forall|i: int| 0 <= i < d.len() implies #[trigger] d[i] == ts[i] by {}
        assert forall|j: int| 0 <= j < ts.len() && p(#[trigger] ts[j]) implies j <= last_where(ts, p) by {
            if j < d.len() {
                assert(p(d[j]));
            }
        }
        if p(ts.last()) {
            assert(p(ts[ts.len() - 1]));
        } else {
            if forall|i: int| 0 <= i < d.len() ==> !p(#[trigger] d[i]) {
                assert forall|i: int| 0 <= i < ts.len() implies !p(#[trigger] ts[i]) by {
                    if i < d.len() {
                        assert(!p(d[i]));
                    }
                }
            }
        }
    }
}

proof fn lemma_last_where_step(ts: Seq<TrackDefinition>, p: spec_fn(TrackDefinition) -> bool, i: int)
    requires
        0 <= i < ts.len(),
    ensures
        last_where(ts.take(i + 1), p) == if p(ts[i]) { i } else { last_where(ts.take(i), p) },
{
    assert(ts.take(i + 1).drop_last() =~= ts.take(i));
    assert(ts.take(i + 1).last() == ts[i]);
}

/// Well-formedness: rendition names are unique within each section.
pub open spec fn hang_wf(c: HangCatalog) -> bool {
    &&& c.video matches Some(v) ==> video_names_unique(v.renditions@)
    &&& c.audio matches Some(a) ==> audio_names_unique(a.renditions@)
}

/// Whether a grouped catalog lists a track name: as a rendition, or as the
/// location, chat or preview track.
pub open spec fn hang_lists(c: HangCatalog, name: Seq<char>) -> bool {
    ||| (c.video matches Some(v) && video_named(v.renditions@, name))
    ||| (c.audio matches Some(a) && audio_named(a.renditions@, name))
    ||| (c.location matches Some(l) && l.track@ == name)
    ||| (c.chat matches Some(ch) && ch.track@ == name)
    ||| (c.preview matches Some(pv) && pv.name@ == name)
}

/// The video section made from the first `k` definitions of `ts`.
pub open spec fn video_built_from(v: Option<HangVideo>, ts: Seq<TrackDefinition>) -> bool {
    let k = last_where(ts, |d: TrackDefinition| is_video(d));
    &&& (v is None <==> k < 0)
    &&& v matches Some(v) ==> {
        &&& v.priority == ts[k].priority as u8
        &&& v.display is None
        &&& v.rotation is None
        &&& v.flip is None
        &&& video_names_unique(v.renditions@)
        &&& forall|n: Seq<char>| video_named(v.renditions@, n) <==> some_named(ts, |d: TrackDefinition| is_video(d), n)
        &&& forall|j: int| 0 <= j < v.renditions@.len() ==> is_default_video_config(#[trigger] v.renditions@[j].config)
    }
}

pub open spec fn audio_built_from(a: Option<HangAudio>, ts: Seq<TrackDefinition>) -> bool {
    let k = last_where(ts, |d: TrackDefinition| is_audio(d));
    &&& (a is None <==> k < 0)
    &&& a matches Some(a) ==> {
        &&& a.priority == ts[k].priority as u8
        &&& audio_names_unique(a.renditions@)
        &&& forall|n: Seq<char>| audio_named(a.renditions@, n) <==> some_named(ts, |d: TrackDefinition| is_audio(d), n)
        &&& forall|j: int| 0 <= j < a.renditions@.len() ==> is_default_audio_config(#[trigger] a.renditions@[j].config)
    }
}

pub open spec fn preview_built_from(pv: Option<HangTrack>, ts: Seq<TrackDefinition>) -> bool {
    let k = last_where(ts, |d: TrackDefinition| is_preview_source(d));
    &&& (pv is None <==> k < 0)
    &&& pv matches Some(pv) ==> pv.name@ == ts[k].name@ && pv.priority == ts[k].priority as u8
}

/// The grouped catalog that a list of definitions maps to: every video or
/// audio definition is a rendition with the default configuration under its
/// kind, whose section priority is that of the last such definition; the last
/// data definition other than the catalog track is the preview.
pub open spec fn hang_built_from(c: HangCatalog, ts: Seq<TrackDefinition>) -> bool {
    &&& video_built_from(c.video, ts)
    &&& audio_built_from(c.audio, ts)
    &&& preview_built_from(c.preview, ts)
    &&& c.location is None
    &&& c.user is None
    &&& c.chat is None
}

impl HangCatalog {
    /// An empty catalog.
    pub fn new() -> (r: Self)
        ensures
            r.video is None,
            r.audio is None,
            r.location is None,
            r.user is None,
            r.chat is None,
            r.preview is None,
    {
        HangCatalog { video: None, audio: None, location: None, user: None, chat: None, preview: None }
    }

    pub fn from_tracks(tracks: &[TrackDefinition]) -> (r: Self)
        ensures
            hang_wf(r),
            hang_built_from(r, tracks@),
    {
        let ghost ts = tracks@;
        let mut video: Option<HangVideo> = None;
        let mut audio: Option<HangAudio> = None;
        let mut preview: Option<HangTrack> = None;
        let mut i: usize = 0;
        proof {
            assert(ts.take(0) =~= Seq::<TrackDefinition>::empty());
        }
        while i < tracks.len()
            invariant
                ts == tracks@,
                i <= ts.len(),
                video_built_from(video, ts.take(i as int)),
                audio_built_from(audio, ts.take(i as int)),
                preview_built_from(preview, ts.take(i as int)),
            decreases ts.len() - i,
        {
            let t = &tracks[i];
            let ghost pre = ts.take(i as int);
            let ghost post = ts.take(i + 1);
            proof {
                lemma_last_where_step(ts, |d: TrackDefinition| is_video(d), i as int);
                lemma_last_where_step(ts, |d: TrackDefinition| is_audio(d), i as int);
                lemma_last_where_step(ts, |d: TrackDefinition| is_preview_source(d), i as int);
                lemma_last_where_bounds(pre, |d: TrackDefinition| is_video(d));
                lemma_last_where_bounds(pre, |d: TrackDefinition| is_audio(d));
                lemma_last_where_bounds(pre, |d: TrackDefinition| is_preview_source(d));
                assert forall|j: int| 0 <= j < pre.len() implies #[trigger] post[j] == pre[j] by {}
                assert(post[i as int] == *t);
            }
            match t.track_type {
                TrackType::Video => {
                    let mut v = match video {
                        Some(v) => v,
                        None => HangVideo {
                            renditions: Vec::new(),
                            priority: 0,
                            display: None,
                            rotation: None,
                            flip: None,
                        },
                    };
                    let ghost before = v.renditions@;
                    put_video_rendition(&mut v.renditions, t.name.clone(), default_video_config());
                    v.priority = t.priority as u8;
                    proof {
                        assert forall|n: Seq<char>| video_named(v.renditions@, n) <==> some_named(post, |d: TrackDefinition| is_video(d), n) by {
                            if some_named(post, |d: TrackDefinition| is_video(d), n) {
                                let j = choose|j: int| 0 <= j < post.len() && is_video(#[trigger] post[j]) && post[j].name@ == n;
                                if j < i {
                                    assert(some_named(pre, |d: TrackDefinition| is_video(d), n));
                                }
                            }
                            if video_named(before, n) {
                                let j = choose|j: int| 0 <= j < pre.len() && is_video(#[trigger] pre[j]) && pre[j].name@ == n;
                                assert(post[j] == pre[j]);
                            }
                        }
                        assert forall|j: int| 0 <= j < v.renditions@.len() implies is_default_video_config(#[trigger] v.renditions@[j].config) by {
                            if v.renditions@[j].name@ != t.name@ {
                                let k = choose|k: int| 0 <= k < before.len() && before[k] == v.renditions@[j];
                            }
                        }
                    }
                    video = Some(v);
                    proof {
                        assert(audio_built_from(audio, post));
                        assert(preview_built_from(preview, post));
                    }
                },
                TrackType::Audio => {
                    let mut a = match audio {
                        Some(a) => a,
                        None => HangAudio { renditions: Vec::new(), priority: 0 },
                    };
                    let ghost before = a.renditions@;
                    put_audio_rendition(&mut a.renditions, t.name.clone(), default_audio_config());
                    a.priority = t.priority as u8;
                    proof {
                        assert forall|n: Seq<char>| audio_named(a.renditions@, n) <==> some_named(post, |d: TrackDefinition| is_audio(d), n) by {
                            if some_named(post, |d: TrackDefinition| is_audio(d), n) {
                                let j = choose|j: int| 0 <= j < post.len() && is_audio(#[trigger] post[j]) && post[j].name@ == n;
                                if j < i {
                                    assert(some_named(pre, |d: TrackDefinition| is_audio(d), n));
                                }
                            }
                            if audio_named(before, n) {
                                let j = choose|j: int| 0 <= j < pre.len() && is_audio(#[trigger] pre[j]) && pre[j].name@ == n;
                                assert(post[j] == pre[j]);
                            }
                        }
                        assert forall|j: int| 0 <= j < a.renditions@.len() implies is_default_audio_config(#[trigger] a.renditions@[j].config) by {
                            if a.renditions@[j].name@ != t.name@ {
                                let k = choose|k: int| 0 <= k < before.len() && before[k] == a.renditions@[j];
                            }
                        }
                    }
                    audio = Some(a);
                    proof {
                        assert(video_built_from(video, post));
                        assert(preview_built_from(preview, post));
                    }
                },
                TrackType::Data => {
                    if !is_catalog_track(t.name.as_str()) {
                        preview = Some(HangTrack { name: t.name.clone(), priority: t.priority as u8 });
                    }
                    proof {
                        assert(video_built_from(video, post));
                        assert(audio_built_from(audio, post));
                        assert(preview_built_from(preview, post));
                    }
                },
            }
            i = i + 1;
        }
        proof {
            assert(ts.take(ts.len() as int) =~= ts);
        }
        HangCatalog { video, audio, location: None, user: None, chat: None, preview }
    }

    /// Whether the catalog lists `name` as a rendition or a track reference.
    pub fn find_track(&self, name: &str) -> (r: bool)
        ensures
            r == hang_lists(*self, name@),
    {
        if let Some(video) = &self.video {
            let mut i: usize = 0;
            while i < video.renditions.len()
                invariant
                    i <= video.renditions@.len(),
                    self.video == Some(*video),
                    forall|j: int| 0 <= j < i ==> (#[trigger] video.renditions@[j]).name@ != name@,
                decreases video.renditions@.len() - i,
            {
                if same_text(video.renditions[i].name.as_str(), name) {
                    assert(video.renditions@[i as int].name@ == name@);
                    return true;
                }
                i = i + 1;
            }
        }
        if let Some(audio) = &self.audio {
            let mut i: usize = 0;
            while i < audio.renditions.len()
                invariant
                    i <= audio.renditions@.len(),
                    self.audio == Some(*audio),
                    forall|j: int| 0 <= j < i ==> (#[trigger] audio.renditions@[j]).name@ != name@,
                decreases audio.renditions@.len() - i,
            {
                if same_text(audio.renditions[i].name.as_str(), name) {
                    assert(audio.renditions@[i as int].name@ == name@);
                    return true;
                }
                i = i + 1;
            }
        }
        if let Some(location) = &self.location {
            if same_text(location.track.as_str(), name) {
                return true;
            }
        }
        if let Some(chat) = &self.chat {
            if same_text(chat.track.as_str(), name) {
                return true;
            }
        }
        if let Some(preview) = &self.preview {
            if same_text(preview.name.as_str(), name) {
                return true;
            }
        }
        false
    }

    /// Adds or replaces the video rendition `name`; the section is created
    /// with `priority` if absent.
    pub fn add_video_track(&mut self, name: String, config: HangVideoConfig, priority: u8)
        requires
            hang_wf(*old(self)),
        ensures
            hang_wf(*final(self)),
            final(self).video matches Some(v) && match old(self).video {
                Some(ov) => {
                    &&& video_put(ov.renditions@, v.renditions@, name@, config)
                    &&& v.priority == ov.priority
                    &&& v.display == ov.display
                    &&& v.rotation == ov.rotation
                    &&& v.flip == ov.flip
                },
                None => {
                    &&& video_put(Seq::empty(), v.renditions@, name@, config)
                    &&& v.priority == priority
                    &&& v.display is None
                    &&& v.rotation is None
                    &&& v.flip is None
                },
            },
            final(self).audio == old(self).audio,
            final(self).location == old(self).location,
            final(self).user == old(self).user,
            final(self).chat == old(self).chat,
            final(self).preview == old(self).preview,
    {
        let mut v = match self.video.take() {
            Some(v) => v,
            None => HangVideo {
                renditions: Vec::new(),
                priority,
                display: None,
                rotation: None,
                flip: None,
            },
        };
        put_video_rendition(&mut v.renditions, name, config);
        self.video = Some(v);
    }

    /// Adds or replaces the audio rendition `name`; the section is created
    /// with `priority` if absent.
    pub fn add_audio_track(&mut self, name: String, config: HangAudioConfig, priority: u8)
        requires
            hang_wf(*old(self)),
        ensures
            hang_wf(*final(self)),
            final(self).audio matches Some(a) && match old(self).audio {
                Some(oa) => {
                    &&& audio_put(oa.renditions@, a.renditions@, name@, config)
                    &&& a.priority == oa.priority
                },
                None => {
                    &&& audio_put(Seq::empty(), a.renditions@, name@, config)
                    &&& a.priority == priority
                },
            },
            final(self).video == old(self).video,
            final(self).location == old(self).location,
            final(self).user == old(self).user,
            final(self).chat == old(self).chat,
            final(self).preview == old(self).preview,
    {
        let mut a = match self.audio.take() {
            Some(a) => a,
            None => HangAudio { renditions: Vec::new(), priority },
        };
        put_audio_rendition(&mut a.renditions, name, config);
        self.audio = Some(a);
    }
}

/// A catalog in one of the two formats.
#[derive(Clone, Debug)]
pub enum Catalog {
    Sesame(SesameCatalog),
    Hang(Box<HangCatalog>),
}

/// The flat records that a list of definitions maps to: one per definition,
/// in order.
pub open spec fn flat_built_from(es: Seq<SesameCatalogTrack>, ts: Seq<TrackDefinition>) -> bool {
    &&& es.len() == ts.len()
    &&& forall|i: int| 0 <= i < ts.len() ==> describes(#[trigger] es[i], ts[i])
}

/// The catalog of format `ty` that a list of definitions maps to.
pub open spec fn catalog_built_from(c: Catalog, ty: CatalogType, ts: Seq<TrackDefinition>) -> bool {
    match c {
        Catalog::Sesame(f) => ty == CatalogType::Sesame && flat_built_from(f.tracks@, ts),
        Catalog::Hang(h) => ty == CatalogType::Hang && hang_built_from(*h, ts),
    }
}

pub open spec fn catalog_wf(c: Catalog) -> bool {
    c matches Catalog::Hang(h) ==> hang_wf(*h)
}

/// Whether a catalog lists a track name.
pub open spec fn catalog_lists(c: Catalog, name: Seq<char>) -> bool {
    match c {
        Catalog::Sesame(f) => flat_lists(f.tracks@, name),
        Catalog::Hang(h) => hang_lists(*h, name),
    }
}

impl Catalog {
    /// The catalog of the given format built from `tracks`; none when the
    /// format is `NoCatalog`.
    pub fn new(catalog_type: CatalogType, tracks: &[TrackDefinition]) -> (r: Option<Self>)
        ensures
            r is None <==> catalog_type == CatalogType::NoCatalog,
            r matches Some(c) ==> catalog_wf(c) && catalog_built_from(c, catalog_type, tracks@),
    {
        match catalog_type {
            CatalogType::NoCatalog => None,
            CatalogType::Sesame => Some(Catalog::Sesame(SesameCatalog::from_tracks(tracks))),
            CatalogType::Hang => Some(Catalog::Hang(Box::new(HangCatalog::from_tracks(tracks)))),
        }
    }

    /// Whether the catalog lists `name`.
    pub fn find_track(&self, name: &str) -> (r: bool)
        ensures
            r == catalog_lists(*self, name@),
    {
        match self {
            Catalog::Sesame(f) => f.find_track(name).is_some(),
            Catalog::Hang(h) => h.find_track(name),
        }
    }
}

/// A catalog built from a list of definitions lists every definition other
/// than the catalog track. In the grouped format the preview slot holds only
/// the last data definition, so a data definition is listed there only when
/// no later data definition carries another name.
pub proof fn lemma_built_catalog_lists_tracks(c: Catalog, ty: CatalogType, ts: Seq<TrackDefinition>, i: int)
    requires
        catalog_built_from(c, ty, ts),
        0 <= i < ts.len(),
        ts[i].name@ != catalog_track_name(),
        ty == CatalogType::Hang && ts[i].track_type == TrackType::Data ==> forall|j: int|
            i < j < ts.len() && is_preview_source(#[trigger] ts[j]) ==> ts[j].name@ == ts[i].name@,
    ensures
        catalog_lists(c, ts[i].name@),
{
    match c {
        Catalog::Sesame(f) => {
            assert(describes(f.tracks@[i], ts[i]));
        },
        Catalog::Hang(h) => {
            let n = ts[i].name@;
            match ts[i].track_type {
                TrackType::Video => {
                    lemma_last_where_bounds(ts, |d: TrackDefinition| is_video(d));
                    assert(some_named(ts, |d: TrackDefinition| is_video(d), n));
                },
                TrackType::Audio => {
                    lemma_last_where_bounds(ts, |d: TrackDefinition| is_audio(d));
                    assert(some_named(ts, |d: TrackDefinition| is_audio(d), n));
                },
                TrackType::Data => {
                    lemma_last_where_bounds(ts, |d: TrackDefinition| is_preview_source(d));
                    assert(is_preview_source(ts[i]));
                    let k = last_where(ts, |d: TrackDefinition| is_preview_source(d));
                    assert(i <= k);
                    if i < k {
                        assert(is_preview_source(ts[k]));
                    }
                },
            }
        },
    }
}

} // verus!
