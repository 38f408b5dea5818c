//! The conversion pipeline: drive the fetch and tag capabilities over a
//! track list, in order, with fallback queries per track, one progress
//! report before each track, per-track failure tolerance, and cancellation
//! observed between tracks.
//!
//! Each capability trait carries a ghost history of the calls made through
//! it, so `convert_playlist`'s contract pins not only the shape of a run
//! but its substance: which queries were tried and in what order, that
//! fetching stops at the first success, which file a success carries,
//! where each recorded error came from, and that a run stops early only on
//! an observed cancellation.

use vstd::prelude::*;
use crate::audio::{is_valid_mp3, mp3_signature, tag_plan, tag_plan_spec, TagError, TagErrorView,
    TagKind, TagPlan};
use crate::config::AppConfig;
use crate::fetch::{FetchError, FetchErrorView};
use crate::track::{TrackInfo, TrackView};

verus! {

/// Why one track failed.
#[derive(Debug, Clone, PartialEq, Eq)]
pub enum TrackError {
    /// Every fetch attempt ended with the tool failing; holds the stderr of
    /// the last attempt.
    FetchFailed { stderr: String },
    /// The tool reported success but no output file was found, and no
    /// attempt produced a better reason.
    FetchProducedNoFile,
    /// The fetched compressed-audio file lacks a recognized tag-container
    /// signature and was refused.
    InvalidFormat,
    /// The fetched file could not be parsed as its expected container.
    TagReadError { detail: String },
    /// Rewriting the fetched file with its new tags failed.
    TagWriteError { detail: String },
}

/// What became of one track.
#[derive(Debug, Clone, PartialEq, Eq)]
pub enum Outcome {
    /// The track was fetched (and tagged where called for); holds the name
    /// of the produced file in the output directory.
    Success { file: String },
    /// The track was attempted and failed; holds the reason and the queries
    /// that were tried.
    Failure { error: TrackError, attempted: Vec<String> },
    /// The run was cancelled before this track was attempted.
    Cancelled,
}

/// The aggregated result of one run.
#[derive(Debug, Clone)]
pub struct BatchResult {
    /// One outcome per track, in input order.
    pub outcomes: Vec<Outcome>,
    /// How many tracks were attempted before the run ended or was
    /// cancelled.
    pub attempted: usize,
    /// How many tracks succeeded.
    pub succeeded: usize,
}

/// How a finished run presents to the caller.
#[derive(Debug, Clone, Copy, PartialEq, Eq, Structural)]
pub enum BatchStatus {
    /// Every track succeeded.
    AllSucceeded,
    /// Some tracks failed or were cancelled, but not everything was lost.
    PartialSuccess,
    /// The full batch ran and not one track succeeded.
    NoSuccesses,
}

/// The fallback queries for one track, most to least specific: specific
/// phrasings first reduce mismatched downloads.
pub open spec fn query_list_spec(t: TrackView) -> Seq<Seq<char>> {
    seq![
        t.title + " "@ + t.artist + " topic"@,
        t.title + " "@ + t.artist + " official audio"@,
        t.title + " "@ + t.artist,
    ]
}

/// Build the fallback queries for one track, most to least specific.
pub fn build_queries(t: &TrackInfo) -> (r: Vec<String>)
    ensures
        r.deep_view() == query_list_spec(t@),
        r@.len() == 3,
{
    let mut base = t.title.clone();
    base.append(" ");
    base.append(t.artist.as_str());
    let mut q1 = base.clone();
    q1.append(" topic");
    let mut q2 = base.clone();
    q2.append(" official audio");
    let mut r: Vec<String> = Vec::new();
    r.push(q1);
    r.push(q2);
    r.push(base);
    proof {
        assert(r.deep_view() =~= query_list_spec(t@));
    }
    r
}

/// One call into the fetch capability, as its ghost history records it.
pub ghost struct FetchCall {
    pub query: Seq<char>,
    pub as_mp3: bool,
    pub result: Result<Seq<char>, FetchErrorView>,
}

/// The ghost view of a fetch result.
pub open spec fn fetch_result_view(r: Result<String, FetchError>) -> Result<
    Seq<char>,
    FetchErrorView,
> {
    match r {
        Ok(f) => Ok(f@),
        Err(e) => Err(e@),
    }
}

/// One call into the tag capability, as its ghost history records it.
pub ghost enum TagCall {
    ReadHeader { file: Seq<char>, header: Seq<u8> },
    WriteTags {
        file: Seq<char>,
        kind: TagKind,
        title: Seq<char>,
        artist: Seq<char>,
        album: Seq<char>,
        result: Result<(), TagErrorView>,
    },
}

/// The ghost view of a tag-write result.
pub open spec fn tag_result_view(r: Result<(), TagError>) -> Result<(), TagErrorView> {
    match r {
        Ok(u) => Ok(u),
        Err(e) => Err(e@),
    }
}

/// A fetch capability: one synchronous invocation of the external download
/// tool for one query.  Implementations live outside the library (or are
/// scripted fakes); nothing is assumed of a result, but the ghost history
/// `calls` records every call with its result, so the pipeline's contract
/// can speak of what was asked and what came back.
pub trait Fetcher {
    /// Every fetch call made so far, oldest first.  An implementation that
    /// keeps no history may leave this default; only a verified
    /// implementation proving `fetch`'s contract needs its own.
    open spec fn calls(&self) -> Seq<FetchCall> {
        Seq::empty()
    }

    /// Attempt one fetch.  `Ok` carries the name, in the output directory,
    /// of the file the invocation produced; `Err` why there is none.
    fn fetch(&mut self, query: &String, as_mp3: bool) -> (r: Result<String, FetchError>)
        ensures
            final(self).calls() == old(self).calls().push(
                (FetchCall { query: query@, as_mp3, result: fetch_result_view(r) }),
            ),
    ;
}

/// A tag-writing capability over the files a fetch produced.
/// Implementations live outside the library (or are scripted fakes); the
/// ghost history `calls` records every call made.
pub trait Tagger {
    /// Every call made so far, oldest first.  An implementation that keeps
    /// no history may leave this default; only a verified implementation
    /// proving the contracts needs its own.
    open spec fn calls(&self) -> Seq<TagCall> {
        Seq::empty()
    }

    /// The first bytes of the named file, for the signature check; short or
    /// empty when the file cannot be read, which fails the check.
    fn read_header(&mut self, file: &String) -> (r: Vec<u8>)
        ensures
            final(self).calls() == old(self).calls().push(
                (TagCall::ReadHeader { file: file@, header: r@ }),
            ),
    ;

    /// Stamp title/artist/album onto the named file under the given
    /// schema, leaving other fields untouched.
    fn write_tags(
        &mut self,
        file: &String,
        kind: TagKind,
        title: &String,
        artist: &String,
        album: &String,
    ) -> (r: Result<(), TagError>)
        ensures
            final(self).calls() == old(self).calls().push(
                (TagCall::WriteTags {
                    file: file@,
                    kind,
                    title: title@,
                    artist: artist@,
                    album: album@,
                    result: tag_result_view(r),
                }),
            ),
    ;
}

/// A cancellation flag, set outside the run and observed by the pipeline
/// at the start of each per-track iteration.  The ghost history
/// `observations` records every answer given, so the pipeline's contract
/// can say that a run stops early only on an observed `true`.
pub trait CancelFlag {
    /// Every observation made so far, oldest first.  An implementation
    /// that keeps no history may leave this default.
    open spec fn observations(&self) -> Seq<bool> {
        Seq::empty()
    }

    /// Whether cancellation has been requested.
    fn is_cancelled(&mut self) -> (r: bool)
        ensures
            final(self).observations() == old(self).observations().push(r),
    ;
}

/// A consumer of progress reports.  The ghost history `reports` records
/// every report handed over, so the pipeline's contract can speak of the
/// whole sequence a run produced.
pub trait ProgressSink {
    /// Every report seen so far, oldest first, as (completed, total,
    /// label).  A sink that does not keep a history may leave this
    /// default; only a verified sink proving `report`'s contract needs its
    /// own.
    open spec fn reports(&self) -> Seq<(int, int, Seq<char>)> {
        Seq::empty()
    }

    /// Take one report: `completed` tracks are done out of `total`, and
    /// `label` names the track now being attempted.
    fn report(&mut self, completed: usize, total: usize, label: &String)
        requires
            completed <= total,
        ensures
            final(self).reports() == old(self).reports().push(
                (completed as int, total as int, label@),
            ),
    ;
}

/// A progress sink that remembers every report.
pub struct ProgressLog {
    /// Every report received: (completed, total, label), oldest first.
    pub entries: Vec<(usize, usize, String)>,
}

impl ProgressLog {
    /// An empty log.
    pub fn new() -> (r: Self)
        ensures
            r.reports() == Seq::<(int, int, Seq<char>)>::empty(),
            r.entries@.len() == 0,
    {
        let r = ProgressLog { entries: Vec::new() };
        proof {
            assert(r.reports() =~= Seq::<(int, int, Seq<char>)>::empty());
        }
        r
    }
}

impl ProgressSink for ProgressLog {
    open spec fn reports(&self) -> Seq<(int, int, Seq<char>)> {
        self.entries@.map_values(|e: (usize, usize, String)| (e.0 as int, e.1 as int, e.2@))
    }

    fn report(&mut self, completed: usize, total: usize, label: &String) {
        self.entries.push((completed, total, label.clone()));
        proof {
            assert(self.reports() =~= old(self).reports().push(
                (completed as int, total as int, label@),
            ));
        }
    }
}

/// A fetcher that replays a fixed script of results, the next one at the
/// back; an exhausted script reports a missing file.  It drives the
/// pipeline without the external tool and carries a proved call history.
pub struct ScriptedFetcher {
    /// The results still to hand out; the next is the last element.
    pub script: Vec<Result<String, FetchError>>,
    /// The history of calls made.
    pub history: Ghost<Seq<FetchCall>>,
}

impl ScriptedFetcher {
    /// A fetcher over the given script, with an empty history.
    pub fn new(script: Vec<Result<String, FetchError>>) -> (r: Self)
        ensures
            r.calls() == Seq::<FetchCall>::empty(),
            r.script@ == script@,
    {
        ScriptedFetcher { script, history: Ghost(Seq::empty()) }
    }
}

impl Fetcher for ScriptedFetcher {
    open spec fn calls(&self) -> Seq<FetchCall> {
        self.history@
    }

    fn fetch(&mut self, query: &String, as_mp3: bool) -> (r: Result<String, FetchError>) {
        let r = match self.script.pop() {
            Some(next) => next,
            None => Err(FetchError::ProducedNoFile),
        };
        proof {
            self.history@ = self.history@.push(
                FetchCall { query: query@, as_mp3, result: fetch_result_view(r) },
            );
        }
        r
    }
}

/// A tagger that replays fixed scripts: headers for reads and results for
/// writes, the next of each at the back; exhausted scripts hand out an
/// empty header and accept the write.  It carries a proved call history.
pub struct ScriptedTagger {
    /// The headers still to hand out; the next is the last element.
    pub header_script: Vec<Vec<u8>>,
    /// The write results still to hand out; the next is the last element.
    pub write_script: Vec<Result<(), TagError>>,
    /// The history of calls made.
    pub history: Ghost<Seq<TagCall>>,
}

impl ScriptedTagger {
    /// A tagger over the given scripts, with an empty history.
    pub fn new(header_script: Vec<Vec<u8>>, write_script: Vec<Result<(), TagError>>) -> (r: Self)
        ensures
            r.calls() == Seq::<TagCall>::empty(),
            r.header_script@ == header_script@,
            r.write_script@ == write_script@,
    {
        ScriptedTagger { header_script, write_script, history: Ghost(Seq::empty()) }
    }
}

impl Tagger for ScriptedTagger {
    open spec fn calls(&self) -> Seq<TagCall> {
        self.history@
    }

    fn read_header(&mut self, file: &String) -> (r: Vec<u8>) {
        let r = match self.header_script.pop() {
            Some(h) => h,
            None => Vec::new(),
        };
        proof {
            self.history@ = self.history@.push(TagCall::ReadHeader { file: file@, header: r@ });
        }
        r
    }

    fn write_tags(
        &mut self,
        file: &String,
        kind: TagKind,
        title: &String,
        artist: &String,
        album: &String,
    ) -> (r: Result<(), TagError>) {
        let r = match self.write_script.pop() {
            Some(x) => x,
            None => Ok(()),
        };
        proof {
            self.history@ = self.history@.push(
                TagCall::WriteTags {
                    file: file@,
                    kind,
                    title: title@,
                    artist: artist@,
                    album: album@,
                    result: tag_result_view(r),
                },
            );
        }
        r
    }
}

/// A cancellation flag that answers `false` a fixed number of times and
/// `true` from then on.  It carries a proved observation history.
pub struct CountdownCancel {
    /// How many more observations come back `false`.
    pub remaining: usize,
    /// The history of observations made.
    pub history: Ghost<Seq<bool>>,
}

impl CountdownCancel {
    /// A flag that answers `false` `remaining` times, with an empty
    /// history.
    pub fn new(remaining: usize) -> (r: Self)
        ensures
            r.observations() == Seq::<bool>::empty(),
            r.remaining == remaining,
    {
        CountdownCancel { remaining, history: Ghost(Seq::empty()) }
    }
}

impl CancelFlag for CountdownCancel {
    open spec fn observations(&self) -> Seq<bool> {
        self.history@
    }

    fn is_cancelled(&mut self) -> (r: bool) {
        let r = self.remaining == 0;
        if !r {
            self.remaining = self.remaining - 1;
        }
        proof {
            self.history@ = self.history@.push(r);
        }
        r
    }
}

/// The progress reports of a run over `tracks` that attempted `k` of
/// them: one report per attempted track, in order, before the attempt,
/// labelled with the track's title.
pub open spec fn run_reports(tracks: Seq<TrackView>, k: int) -> Seq<(int, int, Seq<char>)> {
    Seq::new(k as nat, |i: int| (i, tracks.len() as int, tracks[i].title))
}

/// Progress is monotone: within one run, the completed count reported to
/// the sink never decreases, never exceeds the total, and each report is
/// labelled with the attempted track's title.
pub proof fn lemma_progress_monotone(tracks: Seq<TrackView>, k: int)
    requires
        0 <= k <= tracks.len(),
    ensures
        forall|i: int, j: int|
            0 <= i <= j < k ==> run_reports(tracks, k)[i].0 <= run_reports(tracks, k)[j].0,
        forall|i: int|
            0 <= i < k ==> 0 <= #[trigger] run_reports(tracks, k)[i].0 <= tracks.len()
                && run_reports(tracks, k)[i].1 == tracks.len() && run_reports(tracks, k)[i].2
                == tracks[i].title,
{
}

/// The cancellation observations of a run over `total` tracks that
/// attempted `k`: one `false` before each attempted track, and a final
/// `true` exactly when the run stopped early.
pub open spec fn cancel_obs(total: int, k: int) -> Seq<bool> {
    if k < total {
        Seq::new(k as nat, |i: int| false).push(true)
    } else {
        Seq::new(k as nat, |i: int| false)
    }
}

/// How many outcomes are successes.
pub open spec fn count_successes(s: Seq<Outcome>) -> int
    decreases s.len(),
{
    if s.len() == 0 {
        0
    } else {
        count_successes(s.drop_last()) + if s.last() is Success {
            1int
        } else {
            0int
        }
    }
}

/// How many outcomes are failures.
pub open spec fn count_failures(s: Seq<Outcome>) -> int
    decreases s.len(),
{
    if s.len() == 0 {
        0
    } else {
        count_failures(s.drop_last()) + if s.last() is Failure {
            1int
        } else {
            0int
        }
    }
}

/// The outcome is a success carrying exactly this file.
pub open spec fn success_with(o: Outcome, file: Seq<char>) -> bool {
    match o {
        Outcome::Success { file: f } => f@ == file,
        _ => false,
    }
}

/// The recorded error is the fetch error of the last attempt: its stderr
/// for a tool failure, the generic missing-file reason otherwise.
pub open spec fn error_from_fetch(e: TrackError, last: FetchErrorView) -> bool {
    match last {
        FetchErrorView::Failed { stderr } => match e {
            TrackError::FetchFailed { stderr: s } => s@ == stderr,
            _ => false,
        },
        FetchErrorView::ProducedNoFile => e is FetchProducedNoFile,
    }
}

/// The recorded error is the tagger's returned error.
pub open spec fn error_from_tag(e: TrackError, r: TagErrorView) -> bool {
    match r {
        TagErrorView::Read { detail } => match e {
            TrackError::TagReadError { detail: d } => d@ == detail,
            _ => false,
        },
        TagErrorView::Write { detail } => match e {
            TrackError::TagWriteError { detail: d } => d@ == detail,
            _ => false,
        },
    }
}

/// The outcome is a failure recording exactly the queries `tried`, with
/// the fetch error of the last attempt.
pub open spec fn failure_with_fetch(o: Outcome, tried: Seq<Seq<char>>, last: FetchErrorView) -> bool {
    match o {
        Outcome::Failure { error, attempted } => attempted.deep_view() == tried && error_from_fetch(
            error,
            last,
        ),
        _ => false,
    }
}

/// The outcome is a failure recording exactly the queries `tried`, with
/// the tagger's returned error.
pub open spec fn failure_with_tag(o: Outcome, tried: Seq<Seq<char>>, e: TagErrorView) -> bool {
    match o {
        Outcome::Failure { error, attempted } => attempted.deep_view() == tried && error_from_tag(
            error,
            e,
        ),
        _ => false,
    }
}

/// The outcome is a format refusal recording exactly the queries `tried`.
pub open spec fn failure_invalid_format(o: Outcome, tried: Seq<Seq<char>>) -> bool {
    match o {
        Outcome::Failure { error, attempted } => attempted.deep_view() == tried && error
            is InvalidFormat,
        _ => false,
    }
}

/// One tag write and the outcome it determines: the write carries the
/// track's own title/artist/album under the given schema; an accepted
/// write makes the track a success with the fetched file, a refused one a
/// failure with the tagger's error.
pub open spec fn write_trace(
    t: TrackView,
    file: Seq<char>,
    kind: TagKind,
    c: TagCall,
    o: Outcome,
    tried: Seq<Seq<char>>,
) -> bool {
    match c {
        TagCall::WriteTags { file: f, kind: k, title, artist, album, result } => {
            &&& f == file
            &&& k == kind
            &&& title == t.title
            &&& artist == t.artist
            &&& album == t.album
            &&& match result {
                Ok(_) => success_with(o, file),
                Err(e) => failure_with_tag(o, tried, e),
            }
        },
        _ => false,
    }
}

/// The tag calls that follow a successful fetch of `file`, and the outcome
/// they determine, as `tag_plan_spec` directs: no call and a success for a
/// file the settings leave untagged; a header check and, only when the
/// signature holds, a compressed-schema write; a direct MPEG-4 write.
pub open spec fn tagging_trace(
    t: TrackView,
    as_mp3: bool,
    file: Seq<char>,
    tc: Seq<TagCall>,
    o: Outcome,
    tried: Seq<Seq<char>>,
) -> bool {
    match tag_plan_spec(as_mp3, file) {
        TagPlan::Skip => tc.len() == 0 && success_with(o, file),
        TagPlan::Mp4 => tc.len() == 1 && write_trace(t, file, TagKind::Mp4Ilst, tc[0], o, tried),
        TagPlan::CheckThenId3 => tc.len() >= 1 && match tc[0] {
            TagCall::ReadHeader { file: f, header } => {
                &&& f == file
                &&& if mp3_signature(header) {
                    tc.len() == 2 && write_trace(t, file, TagKind::Id3v2, tc[1], o, tried)
                } else {
                    tc.len() == 1 && failure_invalid_format(o, tried)
                }
            },
            _ => false,
        },
    }
}

/// The fetch and tag calls one attempted track produces, and the outcome
/// they determine: the track's fallback queries are tried in order with
/// the settings' format, stopping at the first success, which is then
/// tagged; an exhausted fetch fails with the last call's error and every
/// query recorded.
pub open spec fn track_attempt_trace(
    t: TrackView,
    cfg: AppConfig,
    fc: Seq<FetchCall>,
    tc: Seq<TagCall>,
    o: Outcome,
) -> bool {
    let qs = query_list_spec(t);
    &&& 1 <= fc.len() <= qs.len()
    &&& forall|j: int|
        0 <= j < fc.len() ==> (#[trigger] fc[j]).query == qs[j] && fc[j].as_mp3
            == cfg.transcode_mp3
    &&& forall|j: int| 0 <= j < fc.len() - 1 ==> (#[trigger] fc[j]).result is Err
    &&& match fc[fc.len() - 1].result {
        Ok(file) => tagging_trace(t, cfg.transcode_mp3, file, tc, o, qs.take(fc.len() as int)),
        Err(e) => fc.len() == qs.len() && tc.len() == 0 && failure_with_fetch(o, qs, e),
    }
}

/// The calls and outcomes of a whole run over `tracks`: the histories
/// split into one segment per track, in order, each segment an attempt as
/// `track_attempt_trace` describes.
pub open spec fn pipeline_trace(
    tracks: Seq<TrackView>,
    cfg: AppConfig,
    fc: Seq<FetchCall>,
    tc: Seq<TagCall>,
    outs: Seq<Outcome>,
) -> bool
    decreases tracks.len(),
{
    if tracks.len() == 0 {
        fc.len() == 0 && tc.len() == 0 && outs.len() == 0
    } else {
        &&& outs.len() == tracks.len()
        &&& exists|nf: int, nt: int|
            #![trigger fc.take(nf), tc.take(nt)]
            {
                &&& 0 <= nf <= fc.len()
                &&& 0 <= nt <= tc.len()
                &&& track_attempt_trace(tracks[0], cfg, fc.take(nf), tc.take(nt), outs[0])
                &&& pipeline_trace(
                    tracks.drop_first(),
                    cfg,
                    fc.skip(nf),
                    tc.skip(nt),
                    outs.drop_first(),
                )
            }
    }
}

proof fn lemma_trace_snoc(
    tracks: Seq<TrackView>,
    cfg: AppConfig,
    fc: Seq<FetchCall>,
    tc: Seq<TagCall>,
    outs: Seq<Outcome>,
    t: TrackView,
    fc2: Seq<FetchCall>,
    tc2: Seq<TagCall>,
    o: Outcome,
)
    requires
        pipeline_trace(tracks, cfg, fc, tc, outs),
        track_attempt_trace(t, cfg, fc2, tc2, o),
    ensures
        pipeline_trace(tracks.push(t), cfg, fc + fc2, tc + tc2, outs.push(o)),
    decreases tracks.len(),
{
    let nts = tracks.push(t);
    let nfc = fc + fc2;
    let ntc = tc + tc2;
    let nouts = outs.push(o);
    if tracks.len() == 0 {
        let nf = fc2.len() as int;
        let nt = tc2.len() as int;
        assert(nfc.take(nf) =~= fc2);
        assert(ntc.take(nt) =~= tc2);
        assert(nts[0] == t);
        assert(nouts[0] == o);
        assert(track_attempt_trace(nts[0], cfg, nfc.take(nf), ntc.take(nt), nouts[0]));
        assert(nts.drop_first() =~= Seq::<TrackView>::empty());
        assert(nfc.skip(nf) =~= Seq::<FetchCall>::empty());
        assert(ntc.skip(nt) =~= Seq::<TagCall>::empty());
        assert(nouts.drop_first() =~= Seq::<Outcome>::empty());
        assert(pipeline_trace(nts.drop_first(), cfg, nfc.skip(nf), ntc.skip(nt),
            nouts.drop_first()));
    } else {
        let (nf, nt) = choose|nf: int, nt: int|
            #![trigger fc.take(nf), tc.take(nt)]
            {
                &&& 0 <= nf <= fc.len()
                &&& 0 <= nt <= tc.len()
                &&& track_attempt_trace(tracks[0], cfg, fc.take(nf), tc.take(nt), outs[0])
                &&& pipeline_trace(
                    tracks.drop_first(),
                    cfg,
                    fc.skip(nf),
                    tc.skip(nt),
                    outs.drop_first(),
                )
            };
        assert(nfc.take(nf) =~= fc.take(nf));
        assert(ntc.take(nt) =~= tc.take(nt));
        assert(nts[0] == tracks[0]);
        assert(nouts[0] == outs[0]);
        assert(track_attempt_trace(nts[0], cfg, nfc.take(nf), ntc.take(nt), nouts[0]));
        assert(nfc.skip(nf) =~= fc.skip(nf) + fc2);
        assert(ntc.skip(nt) =~= tc.skip(nt) + tc2);
        assert(nts.drop_first() =~= tracks.drop_first().push(t));
        assert(nouts.drop_first() =~= outs.drop_first().push(o));
        lemma_trace_snoc(
            tracks.drop_first(),
            cfg,
            fc.skip(nf),
            tc.skip(nt),
            outs.drop_first(),
            t,
            fc2,
            tc2,
            o,
        );
        assert(pipeline_trace(nts.drop_first(), cfg, nfc.skip(nf), ntc.skip(nt),
            nouts.drop_first()));
    }
}

/// What an attempted track's outcome may look like: a failure names the
/// queries actually tried — a non-empty prefix of the track's fallback
/// list, and the whole list when fetching itself was exhausted.
pub open spec fn outcome_for_track(o: Outcome, t: TrackView) -> bool {
    match o {
        Outcome::Failure { error, attempted } => {
            &&& attempted.deep_view().is_prefix_of(query_list_spec(t))
            &&& attempted@.len() >= 1
            &&& (error is FetchFailed || error is FetchProducedNoFile) ==> attempted.deep_view()
                == query_list_spec(t)
        },
        _ => true,
    }
}

/// The shape of a finished run: one outcome per track, the first
/// `attempted` of them genuine attempts in input order, everything after
/// them cancelled.
pub open spec fn outcomes_wf(outs: Seq<Outcome>, tracks: Seq<TrackView>, attempted: int) -> bool {
    &&& outs.len() == tracks.len()
    &&& 0 <= attempted <= outs.len()
    &&& forall|i: int| 0 <= i < attempted ==> !((#[trigger] outs[i]) is Cancelled)
    &&& forall|i: int| attempted <= i < outs.len() ==> (#[trigger] outs[i]) is Cancelled
    &&& forall|i: int| 0 <= i < attempted ==> outcome_for_track(#[trigger] outs[i], tracks[i])
}

fn fetch_exhausted_error(last: Option<FetchError>) -> (r: TrackError)
    ensures
        match last {
            Some(FetchError::Failed { stderr }) => r == (TrackError::FetchFailed { stderr }),
            _ => r == TrackError::FetchProducedNoFile,
        },
{
    match last {
        Some(FetchError::Failed { stderr }) => TrackError::FetchFailed { stderr },
        Some(FetchError::ProducedNoFile) => TrackError::FetchProducedNoFile,
        None => TrackError::FetchProducedNoFile,
    }
}

fn tag_failure_error(e: TagError) -> (r: TrackError)
    ensures
        match e {
            TagError::Read { detail } => r == (TrackError::TagReadError { detail }),
            TagError::Write { detail } => r == (TrackError::TagWriteError { detail }),
        },
        r is TagReadError || r is TagWriteError,
{
    match e {
        TagError::Read { detail } => TrackError::TagReadError { detail },
        TagError::Write { detail } => TrackError::TagWriteError { detail },
    }
}

proof fn lemma_push_extends<A>(s: Seq<A>, t: Seq<A>, v: A, n: int)
    requires
        t == s.push(v),
        0 <= n <= s.len(),
    ensures
        t.take(n) == s.take(n),
        t.len() == s.len() + 1,
        forall|k: int| 0 <= k < s.len() ==> #[trigger] t[k] == s[k],
        t[s.len() as int] == v,
{
    assert forall|k: int| 0 <= k < s.len() implies #[trigger] t[k] == s[k] by {
        assert(t[k] == s.push(v)[k]);
    }
    assert(t[s.len() as int] == s.push(v)[s.len() as int]);
    assert(t.take(n) =~= s.take(n));
}

/// Attempt one track: try its fallback queries in order until one
/// succeeds, then tag the fetched file as the settings and its name call
/// for.  The ghost histories of the two capabilities grow by exactly the
/// segment `track_attempt_trace` describes for the returned outcome.
fn run_track<F: Fetcher, T: Tagger>(
    track: &TrackInfo,
    config: &AppConfig,
    fetcher: &mut F,
    tagger: &mut T,
) -> (o: Outcome)
    ensures
        old(fetcher).calls().is_prefix_of(final(fetcher).calls()),
        old(tagger).calls().is_prefix_of(final(tagger).calls()),
        track_attempt_trace(
            track@,
            *config,
            final(fetcher).calls().skip(old(fetcher).calls().len() as int),
            final(tagger).calls().skip(old(tagger).calls().len() as int),
            o,
        ),
        outcome_for_track(o, track@),
        !(o is Cancelled),
{
    let ghost f0 = old(fetcher).calls();
    let ghost t0 = old(tagger).calls();
    let ghost fhl = f0.len() as int;
    let ghost thl = t0.len() as int;
    let queries = build_queries(track);
    let ghost qspec = query_list_spec(track@);
    let mut qi: usize = 0;
    let mut found: Option<String> = None;
    let mut last_err: Option<FetchError> = None;
    let mut tried: Vec<String> = Vec::new();
    proof {
        assert(tried.deep_view() =~= qspec.take(0));
        assert(fetcher.calls().take(fhl) =~= f0);
    }
    while qi < queries.len() && found.is_none()
        invariant
            queries.deep_view() == qspec,
            queries@.len() == 3,
            qspec.len() == 3,
            qi <= 3,
            tried.deep_view() == qspec.take(qi as int),
            tried@.len() == qi,
            fhl == f0.len() as int,
            tagger.calls() == t0,
            fetcher.calls().len() as int == fhl + qi,
            fetcher.calls().take(fhl) == f0,
            forall|j: int|
                0 <= j < qi ==> (#[trigger] fetcher.calls()[fhl + j]).query == qspec[j]
                    && fetcher.calls()[fhl + j].as_mp3 == config.transcode_mp3,
            match found {
                None => (forall|j: int|
                    0 <= j < qi ==> (#[trigger] fetcher.calls()[fhl + j]).result is Err) && (
                match last_err {
                    Some(e) => qi > 0 && fetcher.calls()[fhl + qi - 1].result == Err::<
                        Seq<char>,
                        FetchErrorView,
                    >(e@),
                    None => qi == 0,
                }),
                Some(f) => qi >= 1 && (forall|j: int|
                    0 <= j < qi - 1 ==> (#[trigger] fetcher.calls()[fhl + j]).result is Err)
                    && fetcher.calls()[fhl + qi - 1].result == Ok::<Seq<char>, FetchErrorView>(
                    f@,
                ),
            },
        decreases 3 - qi + (if found is Some { 0int } else { 1int }),
    {
        let q = queries[qi].clone();
        proof {
            assert(queries.deep_view()[qi as int] == queries@[qi as int]@);
            assert(tried.deep_view().push(q@) =~= qspec.take(qi as int + 1));
        }
        tried.push(q);
        let ghost before = fetcher.calls();
        match fetcher.fetch(&queries[qi], config.transcode_mp3) {
            Ok(f) => {
                proof {
                    lemma_push_extends(
                        before,
                        fetcher.calls(),
                        (FetchCall {
                            query: queries@[qi as int]@,
                            as_mp3: config.transcode_mp3,
                            result: Ok(f@),
                        }),
                        fhl,
                    );
                }
                found = Some(f);
            },
            Err(e) => {
                proof {
                    lemma_push_extends(
                        before,
                        fetcher.calls(),
                        (FetchCall {
                            query: queries@[qi as int]@,
                            as_mp3: config.transcode_mp3,
                            result: Err(e@),
                        }),
                        fhl,
                    );
                }
                last_err = Some(e);
            },
        }
        qi = qi + 1;
    }
    let ghost newf = fetcher.calls().skip(fhl);
    proof {
        assert(forall|j: int|
            0 <= j < newf.len() ==> #[trigger] newf[j] == fetcher.calls()[fhl + j]);
        assert(f0.is_prefix_of(fetcher.calls()));
    }
    match found {
        None => {
            proof {
                assert(tried.deep_view() =~= qspec);
                assert(qspec.take(3) =~= qspec);
                assert(newf.len() == 3);
                assert(tagger.calls().skip(thl) =~= Seq::<TagCall>::empty());
                assert(t0.is_prefix_of(tagger.calls()));
            }
            let o = Outcome::Failure {
                error: fetch_exhausted_error(last_err),
                attempted: tried,
            };
            proof {
                assert(track_attempt_trace(track@, *config, newf, tagger.calls().skip(thl), o));
            }
            o
        },
        Some(file) => {
            proof {
                assert(newf[newf.len() - 1].result == Ok::<Seq<char>, FetchErrorView>(file@));
            }
            let ghost fview = file@;
            let ghost tried_view = qspec.take(qi as int);
            let plan = tag_plan(config.transcode_mp3, file.as_str());
            let o = match plan {
                TagPlan::Skip => {
                    proof {
                        assert(tagger.calls().skip(thl) =~= Seq::<TagCall>::empty());
                    }
                    Outcome::Success { file }
                },
                TagPlan::CheckThenId3 => {
                    let header = tagger.read_header(&file);
                    proof {
                        lemma_push_extends(
                            t0,
                            tagger.calls(),
                            (TagCall::ReadHeader { file: file@, header: header@ }),
                            thl,
                        );
                    }
                    let ghost t_read = tagger.calls();
                    if is_valid_mp3(header.as_slice()) {
                        match tagger.write_tags(
                            &file,
                            TagKind::Id3v2,
                            &track.title,
                            &track.artist,
                            &track.album,
                        ) {
                            Ok(_) => {
                                proof {
                                    lemma_push_extends(
                                        t_read,
                                        tagger.calls(),
                                        (TagCall::WriteTags {
                                            file: file@,
                                            kind: TagKind::Id3v2,
                                            title: track@.title,
                                            artist: track@.artist,
                                            album: track@.album,
                                            result: Ok(()),
                                        }),
                                        thl,
                                    );
                                }
                                Outcome::Success { file }
                            },
                            Err(e) => {
                                proof {
                                    lemma_push_extends(
                                        t_read,
                                        tagger.calls(),
                                        (TagCall::WriteTags {
                                            file: file@,
                                            kind: TagKind::Id3v2,
                                            title: track@.title,
                                            artist: track@.artist,
                                            album: track@.album,
                                            result: Err(e@),
                                        }),
                                        thl,
                                    );
                                }
                                Outcome::Failure { error: tag_failure_error(e), attempted: tried }
                            },
                        }
                    } else {
                        Outcome::Failure { error: TrackError::InvalidFormat, attempted: tried }
                    }
                },
                TagPlan::Mp4 => {
                    match tagger.write_tags(
                        &file,
                        TagKind::Mp4Ilst,
                        &track.title,
                        &track.artist,
                        &track.album,
                    ) {
                        Ok(_) => {
                            proof {
                                lemma_push_extends(
                                    t0,
                                    tagger.calls(),
                                    (TagCall::WriteTags {
                                        file: file@,
                                        kind: TagKind::Mp4Ilst,
                                        title: track@.title,
                                        artist: track@.artist,
                                        album: track@.album,
                                        result: Ok(()),
                                    }),
                                    thl,
                                );
                            }
                            Outcome::Success { file }
                        },
                        Err(e) => {
                            proof {
                                lemma_push_extends(
                                    t0,
                                    tagger.calls(),
                                    (TagCall::WriteTags {
                                        file: file@,
                                        kind: TagKind::Mp4Ilst,
                                        title: track@.title,
                                        artist: track@.artist,
                                        album: track@.album,
                                        result: Err(e@),
                                    }),
                                    thl,
                                );
                            }
                            Outcome::Failure { error: tag_failure_error(e), attempted: tried }
                        },
                    }
                },
            };
            let ghost newt = tagger.calls().skip(thl);
            proof {
                assert(forall|j: int|
                    0 <= j < newt.len() ==> #[trigger] newt[j] == tagger.calls()[thl + j]);
                assert(t0.is_prefix_of(tagger.calls()));
                assert(tagging_trace(
                    track@,
                    config.transcode_mp3,
                    fview,
                    newt,
                    o,
                    tried_view,
                ));
                assert(track_attempt_trace(track@, *config, newf, newt, o));
                assert(tried_view.is_prefix_of(qspec));
            }
            o
        },
    }
}

/// Run the batch conversion of `tracks`: for each track in input order,
/// observe the cancellation flag, report progress, fetch with fallback
/// queries until one succeeds, and tag the fetched file as the settings
/// and its name call for.  A failed track never aborts the batch; a
/// cancelled run returns the outcomes gathered so far, the remaining
/// tracks marked cancelled.
///
/// The contract pins the run's substance through the ghost histories: the
/// fetch and tag calls of the attempted tracks form exactly the trace
/// `pipeline_trace` describes; the progress reports are exactly one per
/// attempted track, in order, labelled with its title; and the
/// cancellation observations are one `false` before each attempted track,
/// with a final `true` exactly when the run stopped early.
pub fn convert_playlist<F: Fetcher, T: Tagger, P: ProgressSink, C: CancelFlag>(
    tracks: &Vec<TrackInfo>,
    config: &AppConfig,
    fetcher: &mut F,
    tagger: &mut T,
    progress: &mut P,
    cancel: &mut C,
) -> (r: BatchResult)
    ensures
        outcomes_wf(r.outcomes@, tracks.deep_view(), r.attempted as int),
        r.succeeded as int == count_successes(r.outcomes@),
        r.succeeded <= r.attempted,
        final(progress).reports() == old(progress).reports() + run_reports(
            tracks.deep_view(),
            r.attempted as int,
        ),
        final(cancel).observations() == old(cancel).observations() + cancel_obs(
            tracks@.len() as int,
            r.attempted as int,
        ),
        old(fetcher).calls().is_prefix_of(final(fetcher).calls()),
        old(tagger).calls().is_prefix_of(final(tagger).calls()),
        pipeline_trace(
            tracks.deep_view().take(r.attempted as int),
            *config,
            final(fetcher).calls().skip(old(fetcher).calls().len() as int),
            final(tagger).calls().skip(old(tagger).calls().len() as int),
            r.outcomes@.take(r.attempted as int),
        ),
{
    let ghost dv = tracks.deep_view();
    let ghost base = progress.reports();
    let ghost obs0 = cancel.observations();
    let ghost fc0 = fetcher.calls();
    let ghost tc0 = tagger.calls();
    let ghost fc0len = fetcher.calls().len() as int;
    let ghost tc0len = tagger.calls().len() as int;
    let total = tracks.len();
    let mut outcomes: Vec<Outcome> = Vec::new();
    let mut succeeded: usize = 0;
    let mut was_cancelled = false;
    let mut i: usize = 0;
    proof {
        assert(base + run_reports(dv, 0) =~= base);
        assert(obs0 + Seq::new(0, |_j: int| false) =~= obs0);
        assert(fetcher.calls().skip(fc0len) =~= Seq::<FetchCall>::empty());
        assert(tagger.calls().skip(tc0len) =~= Seq::<TagCall>::empty());
        assert(fetcher.calls().take(fc0len) =~= fc0);
        assert(tagger.calls().take(tc0len) =~= tc0);
        assert(dv.take(0) =~= Seq::<TrackView>::empty());
    }
    while i < total && !was_cancelled
        invariant
            total == tracks@.len(),
            dv == tracks.deep_view(),
            dv.len() == tracks@.len(),
            forall|k: int| 0 <= k < dv.len() ==> dv[k] == #[trigger] tracks@[k]@,
            i <= total,
            outcomes@.len() == i,
            forall|k: int| 0 <= k < i ==> !((#[trigger] outcomes@[k]) is Cancelled),
            forall|k: int| 0 <= k < i ==> outcome_for_track(#[trigger] outcomes@[k], dv[k]),
            succeeded as int == count_successes(outcomes@),
            succeeded <= i,
            progress.reports() == base + run_reports(dv, i as int),
            fc0len == fc0.len() && tc0len == tc0.len(),
            fc0len <= fetcher.calls().len(),
            fc0 == fetcher.calls().take(fc0len),
            tc0len <= tagger.calls().len(),
            tc0 == tagger.calls().take(tc0len),
            pipeline_trace(
                dv.take(i as int),
                *config,
                fetcher.calls().skip(fc0len),
                tagger.calls().skip(tc0len),
                outcomes@,
            ),
            was_cancelled ==> cancel.observations() == obs0 + Seq::new(
                i as nat,
                |_j: int| false,
            ).push(true) && i < total,
            !was_cancelled ==> cancel.observations() == obs0 + Seq::new(i as nat, |_j: int| false),
        decreases total - i + (if was_cancelled { 0int } else { 1int }),
    {
        let ghost f_head = fetcher.calls();
        let ghost t_head = tagger.calls();
        let ghost outs_head = outcomes@;
        if cancel.is_cancelled() {
            was_cancelled = true;
            proof {
                assert(obs0 + Seq::new(i as nat, |_j: int| false).push(true) =~= (obs0 + Seq::new(
                    i as nat,
                    |_j: int| false,
                )).push(true));
            }
        } else {
            proof {
                assert(obs0 + Seq::new((i + 1) as nat, |_j: int| false) =~= (obs0 + Seq::new(
                    i as nat,
                    |_j: int| false,
                )).push(false));
            }
            let track = &tracks[i];
            progress.report(i, total, &track.title);
            proof {
                assert(dv[i as int].title == tracks@[i as int]@.title);
                assert(base + run_reports(dv, i as int + 1) =~= (base + run_reports(
                    dv,
                    i as int,
                )).push((i as int, total as int, dv[i as int].title)));
            }
            let outcome = run_track(track, config, fetcher, tagger);
            proof {
                let newf = fetcher.calls().skip(f_head.len() as int);
                let newt = tagger.calls().skip(t_head.len() as int);
                assert(fetcher.calls().take(f_head.len() as int) == f_head);
                assert(tagger.calls().take(t_head.len() as int) == t_head);
                assert(fetcher.calls().take(fc0len) =~= f_head.take(fc0len));
                assert(tagger.calls().take(tc0len) =~= t_head.take(tc0len));
                assert(f_head.skip(fc0len) + newf =~= fetcher.calls().skip(fc0len));
                assert(t_head.skip(tc0len) + newt =~= tagger.calls().skip(tc0len));
                lemma_trace_snoc(
                    dv.take(i as int),
                    *config,
                    f_head.skip(fc0len),
                    t_head.skip(tc0len),
                    outs_head,
                    dv[i as int],
                    newf,
                    newt,
                    outcome,
                );
                assert(dv.take(i as int).push(dv[i as int]) =~= dv.take(i as int + 1));
            }
            if matches!(&outcome, Outcome::Success { .. }) {
                succeeded = succeeded + 1;
            }
            proof {
                assert(outcomes@.push(outcome).drop_last() =~= outcomes@);
            }
            outcomes.push(outcome);
            i = i + 1;
        }
    }
    let attempted = i;
    let ghost outs_attempted = outcomes@;
    proof {
        assert(outcomes@.take(attempted as int) =~= outs_attempted);
    }
    while outcomes.len() < total
        invariant
            total == tracks@.len(),
            dv == tracks.deep_view(),
            dv.len() == tracks@.len(),
            attempted <= outcomes@.len() <= total,
            outcomes@.take(attempted as int) == outs_attempted,
            forall|k: int| 0 <= k < attempted ==> !((#[trigger] outcomes@[k]) is Cancelled),
            forall|k: int| 0 <= k < attempted ==> outcome_for_track(#[trigger] outcomes@[k], dv[k]),
            forall|k: int|
                attempted <= k < outcomes@.len() ==> (#[trigger] outcomes@[k]) is Cancelled,
            succeeded as int == count_successes(outcomes@),
            succeeded <= attempted,
        decreases total - outcomes@.len(),
    {
        proof {
            assert(outcomes@.push(Outcome::Cancelled).drop_last() =~= outcomes@);
            assert(outcomes@.push(Outcome::Cancelled).take(attempted as int) =~= outcomes@.take(
                attempted as int,
            ));
        }
        outcomes.push(Outcome::Cancelled);
    }
    proof {
        assert(cancel.observations() =~= obs0 + cancel_obs(total as int, attempted as int));
        assert(fc0 =~= fetcher.calls().take(fc0len));
        assert(tc0 =~= tagger.calls().take(tc0len));
    }
    BatchResult { outcomes, attempted, succeeded }
}
/// The classification of a finished run.
pub open spec fn batch_status_spec(b: &BatchResult) -> BatchStatus {
    if b.succeeded == b.outcomes@.len() {
        BatchStatus::AllSucceeded
    } else if b.succeeded == 0 && b.attempted == b.outcomes@.len() {
        BatchStatus::NoSuccesses
    } else {
        BatchStatus::PartialSuccess
    }
}

impl BatchResult {
    /// Classify the run: every track succeeded; the full batch ran with no
    /// success at all; or anything in between (including a cancelled run,
    /// which is a valid partial result, never a hard failure).
    pub fn status(&self) -> (r: BatchStatus)
        ensures
            r == batch_status_spec(self),
    {
        if self.succeeded == self.outcomes.len() {
            BatchStatus::AllSucceeded
        } else if self.succeeded == 0 && self.attempted == self.outcomes.len() {
            BatchStatus::NoSuccesses
        } else {
            BatchStatus::PartialSuccess
        }
    }

    /// How many outcomes are failures.
    pub fn failure_count(&self) -> (r: usize)
        ensures
            r as int == count_failures(self.outcomes@),
    {
        let mut n: usize = 0;
        let mut k: usize = 0;
        proof {
            assert(count_failures(self.outcomes@.take(0)) == 0);
        }
        while k < self.outcomes.len()
            invariant
                k <= self.outcomes@.len(),
                n <= k,
                n as int == count_failures(self.outcomes@.take(k as int)),
            decreases self.outcomes@.len() - k,
        {
            proof {
                assert(self.outcomes@.take(k as int + 1).drop_last() =~= self.outcomes@.take(
                    k as int,
                ));
                assert(self.outcomes@.take(k as int + 1).last() == self.outcomes@[k as int]);
            }
            if matches!(&self.outcomes[k], Outcome::Failure { .. }) {
                n = n + 1;
            }
            k = k + 1;
        }
        proof {
            assert(self.outcomes@.take(self.outcomes@.len() as int) =~= self.outcomes@);
        }
        n
    }
}

} // verus!
