//! Fakes for tests and for callers that need no real backend.

use vstd::prelude::*;

pub use crate::conformance::in_memory_meeting_store::InMemoryMeetingStore;
pub use crate::conformance::in_memory_storage::InMemoryStorage;

use crate::llm::{
    fingerprint_of, opt_str, prompt_fingerprint, response_view, JsonModel, LlmError,
    LlmProvider, LlmRequest, LlmResponse,
};
use crate::search::{
    first_where, found_at, lemma_first_where, lemma_first_where_none, lemma_first_where_push,
    lemma_first_where_same,
};
use crate::capture::{AudioSources, CaptureError, CaptureResult};
use crate::stdtypes::{joined_path, path_join, prefixed};
use crate::asr::AsrError;
use crate::notes::ir::StructuredNotes;
use crate::segment::{Segment, Transcript};
use crate::text::{chars_of, decimal, push_decimal, push_str, push_zero_padded, zero_padded};
use crate::vad::{SpeechRegion, VadError};

verus! {

/// What a canned prompt answers: a response, or a provider failure with
/// its message.
pub open spec fn canned_view(c: Result<LlmResponse, String>) -> Result<
    Result<Seq<char>, JsonModel>,
    Seq<char>,
> {
    match c {
        Ok(r) => Ok(response_view(r)),
        Err(m) => Err(m@),
    }
}

/// The table entry is keyed by `key`.
pub open spec fn entry_for(key: Seq<char>) -> spec_fn(
    (Seq<char>, Result<Result<Seq<char>, JsonModel>, Seq<char>>),
) -> bool {
    |e: (Seq<char>, Result<Result<Seq<char>, JsonModel>, Seq<char>>)| e.0 == key
}

/// A deterministic `LlmProvider`: answers registered per prompt
/// fingerprint (system and user prompt; schema and temperature do not
/// count). A prompt with no registered answer is a provider error naming
/// the fingerprint.
pub struct MockLlm {
    table: Vec<(String, Result<LlmResponse, String>)>,
}

impl Default for MockLlm {
    /// A mock with nothing registered.
    fn default() -> (r: Self)
        ensures
            forall|k: Seq<char>| r.answer_for(k) is None,
    {
        let r = MockLlm { table: Vec::new() };
        assert forall|k: Seq<char>| r.answer_for(k) is None by {
            lemma_first_where_none(r.entries(), entry_for(k));
        }
        r
    }
}

impl MockLlm {
    /// The registered answers, by fingerprint, in registration order.
    pub closed spec fn entries(&self) -> Seq<(Seq<char>, Result<Result<Seq<char>, JsonModel>, Seq<char>>)> {
        self.table@.map_values(
            |e: (String, Result<LlmResponse, String>)| (e.0@, canned_view(e.1)),
        )
    }

    /// The answer registered for the fingerprint `key`.
    pub open spec fn answer_for(&self, key: Seq<char>) -> Option<
        Result<Result<Seq<char>, JsonModel>, Seq<char>>,
    > {
        match first_where(self.entries(), entry_for(key)) {
            Some(i) => Some(self.entries()[i].1),
            None => None,
        }
    }

    fn entry_pos(&self, key: &String) -> (r: Option<usize>)
        ensures
            found_at(r, self.entries(), entry_for(key@)),
    {
        let ghost s = self.entries();
        let mut i: usize = 0;
        while i < self.table.len()
            invariant
                i <= self.table.len(),
                s == self.entries(),
                forall|j: int| 0 <= j < i ==> !entry_for(key@)(#[trigger] s[j]),
            decreases self.table.len() - i,
        {
            if self.table[i].0 == *key {
                proof {
                    lemma_first_where(s, entry_for(key@), i as int);
                }
                return Some(i);
            }
            i = i + 1;
        }
        proof {
            lemma_first_where_none(s, entry_for(key@));
        }
        None
    }

    /// Registers `answer` for `key`, replacing an earlier one.
    fn register(self, key: String, answer: Result<LlmResponse, String>) -> (r: Self)
        ensures
            forall|k: Seq<char>|
                #[trigger] r.answer_for(k) == if k == key@ {
                    Some(canned_view(answer))
                } else {
                    self.answer_for(k)
                },
    {
        let ghost old_entries = self.entries();
        let ghost e = (key@, canned_view(answer));
        let mut me = self;
        match me.entry_pos(&key) {
            Some(i) => {
                me.table.remove(i);
                me.table.insert(i, (key, answer));
                let ghost new_entries = me.entries();
                assert(new_entries =~= old_entries.update(i as int, e));
                assert forall|k: Seq<char>|
                    #[trigger] me.answer_for(k) == if k == e.0 {
                        Some(e.1)
                    } else {
                        self.answer_for(k)
                    } by {
                    assert forall|j: int| 0 <= j < new_entries.len() implies entry_for(k)(
                        #[trigger] new_entries[j],
                    ) == entry_for(k)(old_entries[j]) by {
                        if j == i {
                            assert(old_entries[j].0 == e.0);
                        }
                    }
                    lemma_first_where_same(new_entries, entry_for(k), old_entries, entry_for(k));
                    if k == e.0 {
                        assert(first_where(old_entries, entry_for(e.0)) == Some(i as int));
                    }
                }
            },
            None => {
                me.table.push((key, answer));
                let ghost new_entries = me.entries();
                assert(new_entries =~= old_entries.push(e));
                assert forall|k: Seq<char>|
                    #[trigger] me.answer_for(k) == if k == e.0 {
                        Some(e.1)
                    } else {
                        self.answer_for(k)
                    } by {
                    lemma_first_where_push(old_entries, e, entry_for(k));
                    if k != e.0 && crate::search::any_where(old_entries, entry_for(k)) {
                        crate::search::lemma_first_where_some(old_entries, entry_for(k));
                    }
                    if k == e.0 {
                        assert(!crate::search::any_where(old_entries, entry_for(e.0)));
                    }
                }
            },
        }
        me
    }

    /// Answers the prompt `(system, user)` with `response`.
    pub fn with_response_for(self, system: Option<&str>, user: &str, response: LlmResponse) -> (r:
        Self)
        ensures
            forall|k: Seq<char>|
                #[trigger] r.answer_for(k) == if k == fingerprint_of(opt_str(system), user@) {
                    Some(Ok(response_view(response)))
                } else {
                    self.answer_for(k)
                },
    {
        let key = prompt_fingerprint(system, user);
        self.register(key, Ok(response))
    }

    /// Fails the prompt `(system, user)` with a provider error carrying
    /// `message`.
    pub fn with_error_for(self, system: Option<&str>, user: &str, message: &str) -> (r: Self)
        ensures
            forall|k: Seq<char>|
                #[trigger] r.answer_for(k) == if k == fingerprint_of(opt_str(system), user@) {
                    Some(Err(message@))
                } else {
                    self.answer_for(k)
                },
    {
        let key = prompt_fingerprint(system, user);
        self.register(key, Err(message.to_owned()))
    }
}

/// The error a mock returns for a prompt it has no answer for.
pub open spec fn unanswered(key: Seq<char>) -> Seq<char> {
    "no canned response for prompt fingerprint "@ + key
}

impl LlmProvider for MockLlm {
    /// The answer registered for the request's fingerprint, or the
    /// unanswered-prompt error.
    open spec fn answers(&self, req: LlmRequest, r: Result<LlmResponse, LlmError>) -> bool {
        let key = fingerprint_of(crate::storage::opt_view(req.system), req.user@);
        match self.answer_for(key) {
            Some(Ok(v)) => r is Ok && response_view(r->Ok_0) == v,
            Some(Err(m)) => r is Err && r->Err_0 is Provider && r->Err_0->Provider_0@ == m,
            None => r is Err && r->Err_0 is Provider && r->Err_0->Provider_0@ == unanswered(key),
        }
    }

    fn complete(&self, req: LlmRequest) -> (r: Result<LlmResponse, LlmError>) {
        let key = match &req.system {
            Some(s) => prompt_fingerprint(Some(s.as_str()), req.user.as_str()),
            None => prompt_fingerprint(None, req.user.as_str()),
        };
        match self.entry_pos(&key) {
            Some(i) => match &self.table[i].1 {
                Ok(resp) => Ok(resp.duplicate()),
                Err(m) => Err(LlmError::Provider(m.clone())),
            },
            None => Err(
                LlmError::Provider(prefixed("no canned response for prompt fingerprint ", key.as_str())),
            ),
        }
    }
}

/// How a `FailingLlm` fails.
pub enum FailMode {
    Provider(String),
    Empty,
}

/// An `LlmProvider` whose backend always fails, whatever the prompt: with a
/// provider error, or with an empty completion.
pub struct FailingLlm {
    pub mode: FailMode,
}

impl FailingLlm {
    /// A backend that fails with a provider error carrying `message`.
    pub fn provider(message: &str) -> (r: Self)
        ensures
            r.mode is Provider,
            r.mode->Provider_0@ == message@,
    {
        FailingLlm { mode: FailMode::Provider(message.to_owned()) }
    }

    /// A backend that returns an empty completion.
    pub fn empty() -> (r: Self)
        ensures
            r.mode is Empty,
    {
        FailingLlm { mode: FailMode::Empty }
    }
}

impl LlmProvider for FailingLlm {
    /// The configured failure, whatever the request.
    open spec fn answers(&self, req: LlmRequest, r: Result<LlmResponse, LlmError>) -> bool {
        match self.mode {
            FailMode::Provider(m) => r is Err && r->Err_0 is Provider && r->Err_0->Provider_0@ == m@,
            FailMode::Empty => r is Err && r->Err_0 is EmptyResponse,
        }
    }

    fn complete(&self, req: LlmRequest) -> (r: Result<LlmResponse, LlmError>) {
        match &self.mode {
            FailMode::Provider(message) => Err(LlmError::Provider(message.clone())),
            FailMode::Empty => Err(LlmError::EmptyResponse),
        }
    }
}


/// A `Diarizer` fake that answers with known turns, whatever the audio:
/// the turns a fixture's `<audio>.turns.json` sidecar lists.
pub struct KnownTurnsFake {
    pub turns: Vec<crate::diar::SpeakerTurn>,
}

impl crate::diar::Diarizer for KnownTurnsFake {
    /// The known turns, whatever the audio.
    open spec fn diarizes(
        &self,
        audio_path: std::path::PathBuf,
        r: Result<Vec<crate::diar::SpeakerTurn>, crate::diar::DiarError>,
    ) -> bool {
        r is Ok && r->Ok_0@ == self.turns@
    }

    fn diarize(&self, audio_path: &std::path::PathBuf) -> (r: Result<
        Vec<crate::diar::SpeakerTurn>,
        crate::diar::DiarError,
    >) {
        let mut out: Vec<crate::diar::SpeakerTurn> = Vec::new();
        let mut i: usize = 0;
        while i < self.turns.len()
            invariant
                i <= self.turns.len(),
                out@ == self.turns@.take(i as int),
            decreases self.turns.len() - i,
        {
            out.push(self.turns[i]);
            assert(out@ =~= self.turns@.take(i + 1));
            i = i + 1;
        }
        assert(self.turns@.take(i as int) =~= self.turns@);
        Ok(out)
    }

    /// A fake.
    open spec fn reports_fake(&self) -> bool {
        true
    }

    fn is_fake(&self) -> (r: bool) {
        true
    }
}

// ---- FakeCapture ----------------------------------------------------------

/// A session the capture fake has started.
struct FakeSession {
    meeting_id: String,
    meeting_dir: std::path::PathBuf,
    started_at_ms: u64,
    audio_sources: AudioSources,
    record_video: bool,
}

spec fn session_value(s: FakeSession) -> (std::path::PathBuf, u64, AudioSources, bool) {
    (s.meeting_dir, s.started_at_ms, s.audio_sources, s.record_video)
}

/// The sessions by meeting id; a later entry for an id wins.
spec fn sessions_map(s: Seq<FakeSession>) -> Map<Seq<char>, (std::path::PathBuf, u64, AudioSources, bool)>
    decreases s.len(),
{
    if s.len() == 0 {
        Map::empty()
    } else {
        sessions_map(s.drop_last()).insert(s.last().meeting_id@, session_value(s.last()))
    }
}

/// The sessions of `s` whose id is not `id`.
spec fn without_id(s: Seq<FakeSession>, id: Seq<char>) -> Seq<FakeSession> {
    s.filter(other_id(id))
}

/// The session's id is not `id`.
spec fn other_id(id: Seq<char>) -> spec_fn(FakeSession) -> bool {
    |e: FakeSession| e.meeting_id@ != id
}

proof fn lemma_without_id(s: Seq<FakeSession>, id: Seq<char>)
    ensures
        sessions_map(without_id(s, id)) == sessions_map(s).remove(id),
    decreases s.len(),
{
    if s.len() == 0 {
        assert(without_id(s, id) =~= Seq::<FakeSession>::empty());
        assert(sessions_map(s).remove(id) =~= Map::empty());
    } else {
        let d = s.drop_last();
        let l = s.last();
        lemma_without_id(d, id);
        let f = other_id(id);
        assert(s == d.push(l));
        d.lemma_filter_push(l, f);
        let w = without_id(d, id);
        if l.meeting_id@ == id {
            assert(without_id(s, id) == w);
            assert(sessions_map(s).remove(id) =~= sessions_map(d).remove(id));
        } else {
            assert(without_id(s, id) == w.push(l));
            assert(w.push(l).drop_last() == w);
            assert(sessions_map(w.push(l)) == sessions_map(w).insert(l.meeting_id@, session_value(l)));
            assert(sessions_map(s).remove(id) =~= sessions_map(d).remove(id).insert(
                l.meeting_id@,
                session_value(l),
            ));
        }
    }
}

/// The session of the last entry with `id` is the one the map holds.
proof fn lemma_last_with_id(s: Seq<FakeSession>, i: int)
    requires
        0 <= i < s.len(),
        forall|j: int| i < j < s.len() ==> (#[trigger] s[j]).meeting_id@ != s[i].meeting_id@,
    ensures
        sessions_map(s).contains_key(s[i].meeting_id@),
        sessions_map(s)[s[i].meeting_id@] == session_value(s[i]),
    decreases s.len(),
{
    if i < s.len() - 1 {
        assert(s.drop_last()[i] == s[i]);
        assert forall|j: int| i < j < s.drop_last().len() implies (#[trigger] s.drop_last()[j]).meeting_id@
            != s.drop_last()[i].meeting_id@ by {
            assert(s.drop_last()[j] == s[j]);
        }
        lemma_last_with_id(s.drop_last(), i);
    }
}

/// No entry has `id`, so the map has no session for it.
proof fn lemma_no_id(s: Seq<FakeSession>, id: Seq<char>)
    requires
        forall|j: int| 0 <= j < s.len() ==> (#[trigger] s[j]).meeting_id@ != id,
    ensures
        !sessions_map(s).contains_key(id),
    decreases s.len(),
{
    if s.len() > 0 {
        assert forall|j: int| 0 <= j < s.drop_last().len() implies (#[trigger] s.drop_last()[j]).meeting_id@
            != id by {
            assert(s.drop_last()[j] == s[j]);
        }
        lemma_no_id(s.drop_last(), id);
    }
}

/// A capture adapter for tests: it records sessions and, on stop, says
/// which synthetic files make up the capture. Writing them is the caller's
/// part.
pub struct FakeCapture {
    sessions: Vec<FakeSession>,
}

impl View for FakeCapture {
    type V = Map<Seq<char>, (std::path::PathBuf, u64, AudioSources, bool)>;

    /// The started sessions: meeting id to meeting directory, start time,
    /// audio sources and whether a screen video is recorded.
    closed spec fn view(&self) -> Self::V {
        sessions_map(self.sessions@)
    }
}

impl Default for FakeCapture {
    /// No sessions.
    fn default() -> (r: Self)
        ensures
            r@ == Map::<Seq<char>, (std::path::PathBuf, u64, AudioSources, bool)>::empty(),
    {
        FakeCapture::new()
    }
}

/// The result a fake capture stops with: `max(ended - started, 1000)` ms
/// (saturating), one track per requested source and three screenshots.
pub open spec fn fake_result_fits(r: CaptureResult, started_at_ms: u64, sources: AudioSources, ended_at_ms: u64) -> bool {
    let elapsed: int = if ended_at_ms >= started_at_ms {
        ended_at_ms - started_at_ms
    } else {
        0
    };
    &&& r.duration_ms == (if elapsed >= 1000 {
        elapsed
    } else {
        1000
    })
    &&& (r.system_audio_path is Some <==> !(sources is MicOnly))
    &&& (r.mic_audio_path is Some <==> !(sources is SystemOnly))
    &&& (r.system_audio_path is Some || r.mic_audio_path is Some)
    &&& r.screenshot_paths@.len() == 3
}

/// The files a fake capture in `dir` consists of: `system.wav` and
/// `mic.wav` in `dir` for the requested sources, `screenshots/001.jpg` to
/// `003.jpg`, and `recording.mov` in `dir` when a video is recorded.
pub open spec fn capture_paths_fit(
    res: (CaptureResult, Option<std::path::PathBuf>),
    dir: std::path::PathBuf,
    sources: AudioSources,
    video: bool,
) -> bool {
    &&& res.0.system_audio_path == if !(sources is MicOnly) {
        Some(joined_path(dir, "system.wav"@))
    } else {
        None
    }
    &&& res.0.mic_audio_path == if !(sources is SystemOnly) {
        Some(joined_path(dir, "mic.wav"@))
    } else {
        None
    }
    &&& forall|k: int|
        0 <= k < res.0.screenshot_paths@.len() ==> #[trigger] res.0.screenshot_paths@[k] == joined_path(
            joined_path(dir, "screenshots"@),
            zero_padded((k + 1) as nat, 3) + ".jpg"@,
        )
    &&& res.1 == if video {
        Some(joined_path(dir, "recording.mov"@))
    } else {
        None
    }
}

impl FakeCapture {
    /// No sessions.
    pub fn new() -> (r: Self)
        ensures
            r@ == Map::<Seq<char>, (std::path::PathBuf, u64, AudioSources, bool)>::empty(),
    {
        let r = FakeCapture { sessions: Vec::new() };
        assert(r@ =~= Map::empty());
        r
    }

    /// Removes every session with `id`.
    fn drop_sessions(&mut self, id: &str)
        ensures
            final(self).sessions@ == without_id(old(self).sessions@, id@),
    {
        let ghost f = other_id(id@);
        let mut kept: Vec<FakeSession> = Vec::new();
        let mut all: Vec<FakeSession> = Vec::new();
        std::mem::swap(&mut all, &mut self.sessions);
        let ghost orig = all@;
        for e in it: all.into_iter()
            invariant
                it.seq() == orig,
                f == other_id(id@),
                kept@ == orig.take(it.index() as int).filter(f),
        {
            let ghost k = it.index() as int;
            proof {
                assert(orig.take(k + 1) =~= orig.take(k).push(e));
                orig.take(k).lemma_filter_push(e, f);
            }
            let same = e.meeting_id.as_str().to_owned() == id.to_owned();
            assert(same == (e.meeting_id@ == id@));
            assert(f(e) == !same);
            if !same {
                kept.push(e);
            }
        }
        assert(orig.take(orig.len() as int) =~= orig);
        self.sessions = kept;
    }

    /// Starts a session for `meeting_id` at `started_at_ms`, replacing any
    /// session with that id.
    pub fn start_capture(
        &mut self,
        meeting_id: &str,
        meeting_dir: std::path::PathBuf,
        audio_sources: AudioSources,
        record_video: bool,
        started_at_ms: u64,
    )
        ensures
            final(self)@ == old(self)@.insert(
                meeting_id@,
                (meeting_dir, started_at_ms, audio_sources, record_video),
            ),
    {
        self.drop_sessions(meeting_id);
        proof {
            lemma_without_id(old(self).sessions@, meeting_id@);
        }
        let ghost mid = self.sessions@;
        self.sessions.push(
            FakeSession {
                meeting_id: meeting_id.to_owned(),
                meeting_dir,
                started_at_ms,
                audio_sources,
                record_video,
            },
        );
        assert(self.sessions@.drop_last() == mid);
        assert(self@ =~= old(self)@.insert(
            meeting_id@,
            (meeting_dir, started_at_ms, audio_sources, record_video),
        ));
    }

    /// Ends the session of `meeting_id` at `ended_at_ms` and returns the
    /// files the capture consists of: `system.wav` and `mic.wav` in the
    /// meeting directory for the requested sources, `screenshots/001.jpg`
    /// to `003.jpg`, and `recording.mov` when a video is recorded. An
    /// unknown id is `SessionNotFound`.
    pub fn stop_capture(&mut self, meeting_id: &str, ended_at_ms: u64) -> (r: Result<
        (CaptureResult, Option<std::path::PathBuf>),
        CaptureError,
    >)
        ensures
            r is Ok <==> old(self)@.contains_key(meeting_id@),
            r matches Ok(res) ==> fake_result_fits(
                res.0,
                old(self)@[meeting_id@].1,
                old(self)@[meeting_id@].2,
                ended_at_ms,
            ) && (res.1 is Some <==> old(self)@[meeting_id@].3) && capture_paths_fit(
                res,
                old(self)@[meeting_id@].0,
                old(self)@[meeting_id@].2,
                old(self)@[meeting_id@].3,
            ),
            r matches Err(e) ==> e matches CaptureError::SessionNotFound(m) && m@ == meeting_id@,
            final(self)@ == old(self)@.remove(meeting_id@),
    {
        let ghost s = self.sessions@;
        let mut found: Option<usize> = None;
        let mut i: usize = self.sessions.len();
        while i > 0 && found.is_none()
            invariant
                i <= s.len(),
                s == self.sessions@,
                found is None ==> forall|j: int| i <= j < s.len() ==> (#[trigger] s[j]).meeting_id@ != meeting_id@,
                found matches Some(k) ==> k < s.len() && s[k as int].meeting_id@ == meeting_id@ && forall|j: int|
                    k < j < s.len() ==> (#[trigger] s[j]).meeting_id@ != meeting_id@,
            decreases i,
        {
            i = i - 1;
            if self.sessions[i].meeting_id.as_str().to_owned() == meeting_id.to_owned() {
                found = Some(i);
            }
        }
        proof {
            lemma_without_id(s, meeting_id@);
        }
        match found {
            None => {
                proof {
                    lemma_no_id(s, meeting_id@);
                    assert(self@.remove(meeting_id@) =~= self@);
                }
                Err(CaptureError::SessionNotFound(meeting_id.to_owned()))
            },
            Some(k) => {
                proof {
                    lemma_last_with_id(s, k as int);
                }
                let started_at_ms = self.sessions[k].started_at_ms;
                let sources = self.sessions[k].audio_sources;
                let video = self.sessions[k].record_video;
                let dir = self.sessions[k].meeting_dir.clone();
                self.drop_sessions(meeting_id);
                let elapsed = ended_at_ms.saturating_sub(started_at_ms);
                let duration_ms = if elapsed >= 1000 {
                    elapsed
                } else {
                    1000
                };
                let system_audio_path = if sources.wants_system() {
                    Some(path_join(&dir, "system.wav"))
                } else {
                    None
                };
                let mic_audio_path = if sources.wants_mic() {
                    Some(path_join(&dir, "mic.wav"))
                } else {
                    None
                };
                let shots_dir = path_join(&dir, "screenshots");
                let mut screenshot_paths: Vec<std::path::PathBuf> = Vec::new();
                let mut n: u64 = 1;
                while n <= 3
                    invariant
                        1 <= n <= 4,
                        screenshot_paths@.len() == n - 1,
                        forall|j: int|
                            0 <= j < screenshot_paths@.len() ==> #[trigger] screenshot_paths@[j] == joined_path(
                                shots_dir,
                                zero_padded((j + 1) as nat, 3) + ".jpg"@,
                            ),
                    decreases 4 - n,
                {
                    let mut name = String::new();
                    push_zero_padded(&mut name, n, 3);
                    push_str(&mut name, ".jpg");
                    assert(name@ =~= zero_padded(n as nat, 3) + ".jpg"@);
                    screenshot_paths.push(path_join(&shots_dir, name.as_str()));
                    n = n + 1;
                }
                let video_path = if video {
                    Some(path_join(&dir, "recording.mov"))
                } else {
                    None
                };
                Ok((CaptureResult { system_audio_path, mic_audio_path, screenshot_paths, duration_ms }, video_path))
            },
        }
    }
}

// ---- speech-recognition fakes ---------------------------------------------

/// Two transcripts hold the same values.
pub open spec fn same_transcript(a: Transcript, b: Transcript) -> bool {
    &&& a.schema_version == b.schema_version
    &&& a.model@ == b.model@
    &&& a.audio_path == b.audio_path
    &&& a.audio_duration_ms == b.audio_duration_ms
    &&& a.diarized == b.diarized
    &&& a.segments@ == b.segments@
}

/// `expected 16 kHz, got {rate} Hz`.
pub open spec fn wrong_rate(rate: u32) -> Seq<char> {
    "expected 16 kHz, got "@ + decimal(rate as nat) + " Hz"@
}

fn wrong_rate_message(rate: u32) -> (r: String)
    ensures
        r@ == wrong_rate(rate),
{
    let mut m = String::new();
    push_str(&mut m, "expected 16 kHz, got ");
    push_decimal(&mut m, rate as u64);
    push_str(&mut m, " Hz");
    m
}

/// The segments of the canned transcript for a `d` ms recording.
pub open spec fn canned_segments(segs: Seq<Segment>, d: u64) -> Seq<Segment> {
    if segs.len() == 0 {
        segs
    } else {
        segs.update(0, Segment { start_ms: 0, end_ms: d, ..segs[0] })
    }
}

/// A speech-recognition fake that answers with a canned transcript, its
/// duration taken from the samples it is given.
pub struct TranscriptFileFake {
    pub canned: Transcript,
}

/// A single segment of `text` in `language`, spanning nothing yet.
fn single_segment(text: &str, language: Option<&str>) -> (r: Transcript)
    ensures
        r.schema_version == Transcript::SCHEMA_VERSION,
        r.model@ == "transcript-file-fake"@,
        r.audio_duration_ms == 0,
        !r.diarized,
        r.segments@.len() == 1,
        r.segments@[0].start_ms == 0 && r.segments@[0].end_ms == 0,
        r.segments@[0].text@ == text@,
        crate::storage::opt_view(r.segments@[0].language_detected) == match language {
            Some(l) => Some(l@),
            None => None::<Seq<char>>,
        },
        r.segments@[0].confidence_bits == 0x3f80_0000,
        !r.segments@[0].is_partial,
        r.segments@[0].speaker_id is None,
{
    let language_detected = match language {
        Some(l) => Some(l.to_owned()),
        None => None,
    };
    let seg = Segment {
        start_ms: 0,
        end_ms: 0,
        text: text.to_owned(),
        language_detected,
        confidence_bits: 0x3f80_0000,
        is_partial: false,
        speaker_id: None,
    };
    let mut segments: Vec<Segment> = Vec::new();
    segments.push(seg);
    Transcript {
        schema_version: Transcript::SCHEMA_VERSION,
        model: "transcript-file-fake".to_owned(),
        audio_path: std::path::PathBuf::new(),
        audio_duration_ms: 0,
        diarized: false,
        segments,
    }
}

impl Default for TranscriptFileFake {
    /// An empty English segment (confidence 1.0).
    fn default() -> (r: Self)
        ensures
            r.canned.segments@.len() == 1,
            r.canned.segments@[0].text@ == Seq::<char>::empty(),
    {
        let r = TranscriptFileFake { canned: single_segment("", Some("en")) };
        proof {
            reveal_strlit("");
        }
        r
    }
}

impl TranscriptFileFake {
    /// A fake answering with `canned`.
    pub fn with_canned(canned: Transcript) -> (r: Self)
        ensures
            r.canned == canned,
    {
        TranscriptFileFake { canned }
    }

    /// A fake whose canned transcript is one segment of `text` (confidence
    /// 1.0) in `language`.
    pub fn from_text(text: &str, language: Option<&str>) -> (r: Self)
        ensures
            r.canned.segments@.len() == 1,
            r.canned.segments@[0].text@ == text@,
            r.canned.model@ == "transcript-file-fake"@,
    {
        TranscriptFileFake { canned: single_segment(text, language) }
    }

    /// The answer to `n_samples` samples at `sample_rate`: the canned
    /// transcript lasting as long as the samples, its first segment spanning
    /// them. Only 16 kHz is accepted.
    pub fn transcribe_samples(&self, n_samples: usize, sample_rate: u32) -> (r: Result<Transcript, AsrError>)
        requires
            n_samples * 1000 <= u64::MAX,
        ensures
            r is Err <==> sample_rate != 16_000,
            r matches Err(e) ==> e matches AsrError::InvalidAudio(m) && m@ == wrong_rate(sample_rate),
            r matches Ok(t) ==> {
                let d = (n_samples * 1000 / 16_000) as u64;
                &&& t.schema_version == self.canned.schema_version
                &&& t.model@ == self.canned.model@
                &&& t.audio_path == self.canned.audio_path
                &&& t.audio_duration_ms == d
                &&& t.diarized == self.canned.diarized
                &&& t.segments@ == canned_segments(self.canned.segments@, d)
            },
    {
        if sample_rate != 16_000 {
            return Err(AsrError::InvalidAudio(wrong_rate_message(sample_rate)));
        }
        let d: u64 = (n_samples as u64) * 1000 / 16_000;
        let mut t = self.canned.duplicate();
        t.audio_duration_ms = d;
        if t.segments.len() > 0 {
            let mut first = t.segments[0].duplicate();
            first.start_ms = 0;
            first.end_ms = d;
            t.segments.set(0, first);
        }
        proof {
            assert(t.segments@ =~= canned_segments(self.canned.segments@, d));
        }
        Ok(t)
    }
}

/// A speech-recognition fake for recursive re-transcription: call `k`
/// answers with the `k`-th canned transcript (the last one once they run
/// out), or fails from a chosen call on.
pub struct LowConfidenceAsr {
    responses: Vec<Transcript>,
    error_after: Option<usize>,
    calls: usize,
}

impl LowConfidenceAsr {
    /// The canned transcripts.
    pub closed spec fn canned(&self) -> Seq<Transcript> {
        self.responses@
    }

    /// The call from which every call fails, if any.
    pub closed spec fn fails_from(&self) -> Option<usize> {
        self.error_after
    }

    /// The calls made so far.
    pub closed spec fn calls_made(&self) -> nat {
        self.calls as nat
    }

    /// A fake over `responses`, which must not be empty.
    pub fn with_responses(responses: Vec<Transcript>) -> (r: Self)
        requires
            responses@.len() > 0,
        ensures
            r.canned() == responses@,
            r.fails_from() is None,
            r.calls_made() == 0,
    {
        LowConfidenceAsr { responses, error_after: None, calls: 0 }
    }

    /// The same fake, failing on call `n` and every call after.
    pub fn with_error_after(self, n: usize) -> (r: Self)
        ensures
            r.canned() == self.canned(),
            r.fails_from() == Some(n),
            r.calls_made() == self.calls_made(),
    {
        LowConfidenceAsr { responses: self.responses, error_after: Some(n), calls: self.calls }
    }

    /// The number of calls made so far.
    pub fn call_count(&self) -> (r: usize)
        ensures
            r == self.calls_made(),
    {
        self.calls
    }

    /// The answer to the next call.
    pub fn next_transcript(&mut self) -> (r: Result<Transcript, AsrError>)
        requires
            old(self).canned().len() > 0,
            old(self).calls_made() < usize::MAX,
        ensures
            final(self).canned() == old(self).canned(),
            final(self).fails_from() == old(self).fails_from(),
            final(self).calls_made() == old(self).calls_made() + 1,
            ({
                let k = old(self).calls_made();
                match old(self).fails_from() {
                    Some(n) if k >= n => r matches Err(AsrError::Transcription(m)) && m@
                        == "LowConfidenceAsr injected error at call "@ + decimal(k),
                    _ => r matches Ok(t) && same_transcript(
                        t,
                        old(self).canned()[if k < old(self).canned().len() {
                            k as int
                        } else {
                            old(self).canned().len() - 1
                        }],
                    ),
                }
            }),
    {
        let idx = self.calls;
        self.calls = self.calls + 1;
        match self.error_after {
            Some(n) => {
                if idx >= n {
                    let mut m = String::new();
                    push_str(&mut m, "LowConfidenceAsr injected error at call ");
                    push_decimal(&mut m, idx as u64);
                    return Err(AsrError::Transcription(m));
                }
            },
            None => {},
        }
        let last = self.responses.len() - 1;
        let pick = if idx < last {
            idx
        } else {
            last
        };
        Ok(self.responses[pick].duplicate())
    }
}

/// The language a fixture's file stem implies: `en_*` and
/// `multi_speaker_*` are English, `es_*` Spanish, `mixed_*` English.
pub open spec fn stem_language(stem: Seq<char>) -> Option<Seq<char>> {
    if "en_"@.is_prefix_of(stem) || "multi_speaker_"@.is_prefix_of(stem) {
        Some("en"@)
    } else if "es_"@.is_prefix_of(stem) {
        Some("es"@)
    } else if "mixed_"@.is_prefix_of(stem) {
        Some("en"@)
    } else {
        None
    }
}

fn starts_with(s: &Vec<char>, p: &str) -> (r: bool)
    ensures
        r == p@.is_prefix_of(s@),
{
    let pc = chars_of(p);
    if pc.len() > s.len() {
        return false;
    }
    let mut i: usize = 0;
    while i < pc.len()
        invariant
            i <= pc@.len() <= s@.len(),
            pc@ == p@,
            forall|j: int| 0 <= j < i ==> pc@[j] == s@[j],
        decreases pc@.len() - i,
    {
        if pc[i] != s[i] {
            return false;
        }
        i = i + 1;
    }
    true
}

/// The language a fixture's file stem implies (see `stem_language`).
pub fn language_for_stem(stem: &str) -> (r: Option<String>)
    ensures
        crate::storage::opt_view(r) == stem_language(stem@),
{
    let cs = chars_of(stem);
    if starts_with(&cs, "en_") || starts_with(&cs, "multi_speaker_") {
        Some("en".to_owned())
    } else if starts_with(&cs, "es_") {
        Some("es".to_owned())
    } else if starts_with(&cs, "mixed_") {
        Some("en".to_owned())
    } else {
        None
    }
}

/// What `Path::file_stem` followed by `OsStr::to_str` gives for `p`: the
/// stem as text, `None` when there is no stem or it is not valid UTF-8.
pub uninterp spec fn file_stem_of(p: std::path::PathBuf) -> Option<Seq<char>>;

/// `Path::file_stem` read as UTF-8 text with `OsStr::to_str` (the stem's
/// type lives in `std::ffi`, so the two calls stand together). The result
/// is a function of the path alone, named by `file_stem_of`.
#[verifier::external_body]
fn file_stem_text(p: &std::path::PathBuf) -> (r: Option<String>)
    ensures
        crate::storage::opt_view(r) == file_stem_of(*p),
{
    match p.file_stem() {
        Some(s) => match s.to_str() {
            Some(t) => Some(t.to_owned()),
            None => None,
        },
        None => None,
    }
}

/// The language of an audio path: that its stem implies, if it has one.
pub open spec fn path_language(p: std::path::PathBuf) -> Option<Seq<char>> {
    match file_stem_of(p) {
        Some(stem) => stem_language(stem),
        None => None,
    }
}

/// The language a fixture's audio file name implies: that of its stem, if
/// it has one (see `stem_language`).
pub fn infer_language(audio_path: &std::path::PathBuf) -> (r: Option<String>)
    ensures
        crate::storage::opt_view(r) == path_language(*audio_path),
{
    match file_stem_text(audio_path) {
        Some(stem) => {
            let r = language_for_stem(stem.as_str());
            assert(crate::storage::opt_view(r) == stem_language(stem@));
            r
        },
        None => None,
    }
}

/// The canned transcript a fixture's sidecar text gives: one segment of
/// the trimmed text (confidence 1.0), its language inferred from the audio
/// file name.
pub fn canned_transcript(sidecar_text: &str, audio_path: std::path::PathBuf) -> (r: Transcript)
    ensures
        r.schema_version == Transcript::SCHEMA_VERSION,
        r.model@ == "transcript-file-fake"@,
        r.audio_path == audio_path,
        r.audio_duration_ms == 0,
        !r.diarized,
        r.segments@.len() == 1,
        r.segments@[0].start_ms == 0 && r.segments@[0].end_ms == 0,
        r.segments@[0].text@ == crate::text::trim_spec(sidecar_text@),
        crate::storage::opt_view(r.segments@[0].language_detected) == path_language(audio_path),
        r.segments@[0].confidence_bits == 0x3f80_0000,
        !r.segments@[0].is_partial,
        r.segments@[0].speaker_id is None,
{
    let language_detected = infer_language(&audio_path);
    let trimmed = crate::text::trim_chars(&chars_of(sidecar_text));
    let mut text = String::new();
    crate::text::push_chars(&mut text, &trimmed);
    proof {
        assert(text@ =~= crate::text::trim_spec(sidecar_text@));
    }
    let seg = Segment {
        start_ms: 0,
        end_ms: 0,
        text,
        language_detected,
        confidence_bits: 0x3f80_0000,
        is_partial: false,
        speaker_id: None,
    };
    let mut segments: Vec<Segment> = Vec::new();
    segments.push(seg);
    Transcript {
        schema_version: Transcript::SCHEMA_VERSION,
        model: "transcript-file-fake".to_owned(),
        audio_path,
        audio_duration_ms: 0,
        diarized: false,
        segments,
    }
}

// ---- speech-detection fake ------------------------------------------------

/// Regions closed so far and the start of the open one, after the first
/// `n` frames.
pub open spec fn frame_walk(speech: Seq<bool>, frame_ms: u64, n: nat) -> (Seq<SpeechRegion>, Option<u64>)
    decreases n,
{
    if n == 0 {
        (Seq::empty(), None)
    } else {
        let (rs, open) = frame_walk(speech, frame_ms, (n - 1) as nat);
        let start = ((n - 1) * frame_ms) as u64;
        if speech[n - 1] {
            (rs, if open is None { Some(start) } else { open })
        } else {
            match open {
                Some(s) => (rs.push(SpeechRegion { start_ms: s, end_ms: start }), None),
                None => (rs, None),
            }
        }
    }
}

/// The speech regions of frames of `frame_ms` each: a run of speech frames
/// is one region, from its first frame's start to the next frame's start,
/// or to `end_ms` when it runs to the end; a run that starts at or after
/// `end_ms` (a partial last frame) gives no region.
pub open spec fn frame_regions(speech: Seq<bool>, frame_ms: u64, end_ms: u64) -> Seq<SpeechRegion> {
    let (rs, open) = frame_walk(speech, frame_ms, speech.len());
    match open {
        Some(s) => if s < end_ms {
            rs.push(SpeechRegion { start_ms: s, end_ms })
        } else {
            rs
        },
        None => rs,
    }
}

/// Every region starts before it ends, and each ends before the next starts.
pub open spec fn regions_well_ordered(r: Seq<SpeechRegion>) -> bool {
    &&& forall|k: int| 0 <= k < r.len() ==> (#[trigger] r[k]).start_ms < r[k].end_ms
    &&& forall|k: int, l: int| 0 <= k < l < r.len() ==> (#[trigger] r[k]).end_ms < (#[trigger] r[l]).start_ms
}

proof fn lemma_frame_walk(speech: Seq<bool>, frame_ms: u64, n: nat)
    requires
        frame_ms > 0,
        n <= speech.len(),
        n * frame_ms <= u64::MAX,
    ensures
        ({
            let (rs, open) = frame_walk(speech, frame_ms, n);
            &&& forall|k: int| 0 <= k < rs.len() ==> (#[trigger] rs[k]).start_ms < rs[k].end_ms && rs[k].end_ms < n * frame_ms
            &&& forall|k: int, l: int| 0 <= k < l < rs.len() ==> (#[trigger] rs[k]).end_ms < (#[trigger] rs[l]).start_ms
            &&& open matches Some(s) ==> s < n * frame_ms && forall|k: int| 0 <= k < rs.len() ==> (#[trigger] rs[k]).end_ms < s
        }),
    decreases n,
{
    if n > 0 {
        assert((n - 1) * frame_ms <= n * frame_ms) by (nonlinear_arith)
            requires
                n >= 1,
        ;
        assert((n - 1) * frame_ms + frame_ms == n * frame_ms) by (nonlinear_arith);
        lemma_frame_walk(speech, frame_ms, (n - 1) as nat);
    }
}

/// Speech regions come in order: every region starts before it ends, and
/// each ends before the next one starts.
pub proof fn law_frame_regions_ordered(speech: Seq<bool>, frame_ms: u64, end_ms: u64)
    requires
        frame_ms > 0,
        speech.len() * frame_ms <= u64::MAX,
    ensures
        regions_well_ordered(frame_regions(speech, frame_ms, end_ms)),
{
    lemma_frame_walk(speech, frame_ms, speech.len());
    let (rs, open) = frame_walk(speech, frame_ms, speech.len());
    match open {
        Some(s) => {
            if s < end_ms {
                let r = rs.push(SpeechRegion { start_ms: s, end_ms });
                assert forall|k: int, l: int| 0 <= k < l < r.len() implies (#[trigger] r[k]).end_ms < (
                #[trigger] r[l]).start_ms by {
                    assert(r[k] == rs[k]);
                    if l < rs.len() {
                        assert(r[l] == rs[l]);
                    }
                }
                assert forall|k: int| 0 <= k < r.len() implies (#[trigger] r[k]).start_ms < r[k].end_ms by {
                    if k < rs.len() {
                        assert(r[k] == rs[k]);
                    }
                }
            }
        },
        None => {},
    }
}

/// The samples per frame of `frame_ms` at `sample_rate`; only 16 kHz is
/// accepted, and a frame must hold at least one sample.
pub fn vad_frame_samples(sample_rate: u32, frame_ms: u64) -> (r: Result<u64, VadError>)
    requires
        16_000 * frame_ms <= u64::MAX,
    ensures
        sample_rate != 16_000 ==> (r matches Err(VadError::InvalidAudio(m)) && m@ == wrong_rate(sample_rate)),
        sample_rate == 16_000 && frame_ms == 0 ==> (r matches Err(VadError::InvalidAudio(m)) && m@
            == "frame_ms produces zero samples per frame"@),
        sample_rate == 16_000 && frame_ms > 0 ==> r == Ok::<u64, VadError>((16_000 * frame_ms / 1000) as u64),
{
    if sample_rate != 16_000 {
        return Err(VadError::InvalidAudio(wrong_rate_message(sample_rate)));
    }
    let n = 16_000 * frame_ms / 1000;
    if n == 0 {
        return Err(VadError::InvalidAudio("frame_ms produces zero samples per frame".to_owned()));
    }
    Ok(n)
}

/// The speech regions of consecutive frames of `frame_ms`, given which
/// frames hold speech, for `n_samples` samples at 16 kHz.
pub fn regions_from_frames(speech: &[bool], frame_ms: u64, n_samples: u64) -> (r: Vec<SpeechRegion>)
    requires
        frame_ms > 0,
        speech@.len() * frame_ms <= u64::MAX,
        n_samples * 1000 <= u64::MAX,
    ensures
        r@ == frame_regions(speech@, frame_ms, (n_samples * 1000 / 16_000) as u64),
        regions_well_ordered(r@),
{
    proof {
        law_frame_regions_ordered(speech@, frame_ms, (n_samples * 1000 / 16_000) as u64);
    }
    let mut regions: Vec<SpeechRegion> = Vec::new();
    let mut open: Option<u64> = None;
    let mut i: usize = 0;
    while i < speech.len()
        invariant
            i <= speech@.len(),
            speech@.len() * frame_ms <= u64::MAX,
            (regions@, open) == frame_walk(speech@, frame_ms, i as nat),
        decreases speech@.len() - i,
    {
        assert(i * frame_ms <= speech@.len() * frame_ms) by (nonlinear_arith)
            requires
                i <= speech@.len(),
        ;
        let start: u64 = (i as u64) * frame_ms;
        if speech[i] {
            if open.is_none() {
                open = Some(start);
            }
        } else {
            match open {
                Some(s) => {
                    regions.push(SpeechRegion { start_ms: s, end_ms: start });
                    open = None;
                },
                None => {},
            }
        }
        i = i + 1;
    }
    let end_ms: u64 = n_samples * 1000 / 16_000;
    match open {
        Some(s) => {
            if s < end_ms {
                regions.push(SpeechRegion { start_ms: s, end_ms });
            }
        },
        None => {},
    }
    regions
}

// ---- exporter fake --------------------------------------------------------

/// The body the fake exporter writes: `title: {title}\nsections: {n}\n`.
pub fn fake_export_body(notes: &StructuredNotes) -> (r: String)
    ensures
        r@ == "title: "@ + notes.frontmatter.title@ + "\nsections: "@ + decimal(notes.sections@.len())
            + "\n"@,
{
    let mut s = String::new();
    push_str(&mut s, "title: ");
    push_str(&mut s, notes.frontmatter.title.as_str());
    push_str(&mut s, "\nsections: ");
    push_decimal(&mut s, notes.sections.len() as u64);
    push_str(&mut s, "\n");
    s
}

} // verus!
