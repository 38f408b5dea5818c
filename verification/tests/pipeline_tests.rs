use spotify2media::audio::{TagError, TagKind};
use spotify2media::config::AppConfig;
use spotify2media::fetch::FetchError;
use spotify2media::pipeline::{
    convert_playlist, BatchStatus, CancelFlag, CountdownCancel, Fetcher, Outcome, ProgressLog,
    ProgressSink, ScriptedFetcher, ScriptedTagger, Tagger, TrackError,
};
use spotify2media::track::TrackInfo;

fn track(t: &str, a: &str, l: &str) -> TrackInfo {
    TrackInfo { title: t.to_string(), artist: a.to_string(), album: l.to_string() }
}

fn settings(transcode: bool) -> AppConfig {
    AppConfig { transcode_mp3: transcode, generate_m3u: true, exclude_instrumentals: false }
}

/// Succeeds on every query unless the query contains `fail_needle`; returns
/// `file` on success and records every query it saw.
struct ScriptFetcher {
    calls: Vec<String>,
    fail_needle: Option<String>,
    succeed_only_on: Option<String>,
    file: String,
}

impl ScriptFetcher {
    fn ok(file: &str) -> Self {
        ScriptFetcher {
            calls: Vec::new(),
            fail_needle: None,
            succeed_only_on: None,
            file: file.to_string(),
        }
    }
}

impl Fetcher for ScriptFetcher {
    fn fetch(&mut self, query: &String, _as_mp3: bool) -> Result<String, FetchError> {
        self.calls.push(query.clone());
        if let Some(needle) = &self.fail_needle {
            if query.contains(needle.as_str()) {
                return Err(FetchError::Failed { stderr: format!("no match for {query}") });
            }
        }
        if let Some(only) = &self.succeed_only_on {
            if query != only {
                return Err(FetchError::Failed { stderr: format!("too specific: {query}") });
            }
        }
        Ok(self.file.clone())
    }
}

/// Hands back a fixed header and records every tag write.
struct ScriptTagger {
    header: Vec<u8>,
    writes: Vec<(String, TagKind, String, String, String)>,
    fail_write: bool,
}

impl ScriptTagger {
    fn ok() -> Self {
        ScriptTagger { header: b"ID3\x04".to_vec(), writes: Vec::new(), fail_write: false }
    }
}

impl Tagger for ScriptTagger {
    fn read_header(&mut self, _file: &String) -> Vec<u8> {
        self.header.clone()
    }

    fn write_tags(
        &mut self,
        file: &String,
        kind: TagKind,
        title: &String,
        artist: &String,
        album: &String,
    ) -> Result<(), TagError> {
        if self.fail_write {
            return Err(TagError::Write { detail: "disk full".to_string() });
        }
        self.writes.push((file.clone(), kind, title.clone(), artist.clone(), album.clone()));
        Ok(())
    }
}

struct NeverCancel;

impl CancelFlag for NeverCancel {
    fn is_cancelled(&mut self) -> bool {
        false
    }
}

/// Reports cancellation from its `after + 1`-th observation on.
struct CancelAfter {
    seen: usize,
    after: usize,
}

impl CancelFlag for CancelAfter {
    fn is_cancelled(&mut self) -> bool {
        self.seen += 1;
        self.seen > self.after
    }
}

/// A sink implemented outside the library, as a presentation layer would.
struct CountingSink {
    n: usize,
}

impl ProgressSink for CountingSink {
    fn report(&mut self, _completed: usize, _total: usize, _label: &String) {
        self.n += 1;
    }
}

#[test]
fn failure_tolerance_continues_past_a_bad_track() {
    let tracks = vec![track("One", "A", ""), track("Two", "B", ""), track("Three", "C", "")];
    let mut fetcher = ScriptFetcher::ok("out.mp3");
    fetcher.fail_needle = Some("Two".to_string());
    let mut tagger = ScriptTagger::ok();
    let mut progress = ProgressLog::new();
    let mut cancel = NeverCancel;
    let r = convert_playlist(
        &tracks,
        &settings(false),
        &mut fetcher,
        &mut tagger,
        &mut progress,
        &mut cancel,
    );
    assert_eq!(r.outcomes.len(), 3);
    assert!(matches!(&r.outcomes[0], Outcome::Success { .. }));
    assert!(matches!(&r.outcomes[1], Outcome::Failure { .. }));
    assert!(matches!(&r.outcomes[2], Outcome::Success { .. }));
    assert_eq!(r.attempted, 3);
    assert_eq!(r.succeeded, 2);
    assert_eq!(r.status(), BatchStatus::PartialSuccess);
    assert_eq!(r.failure_count(), 1);
    // The failed track carries every query that was tried, and the reason
    // is the last fetch error.
    match &r.outcomes[1] {
        Outcome::Failure { error, attempted } => {
            assert_eq!(
                attempted,
                &vec![
                    "Two B topic".to_string(),
                    "Two B official audio".to_string(),
                    "Two B".to_string(),
                ]
            );
            assert!(matches!(error, TrackError::FetchFailed { .. }));
        }
        other => panic!("expected a failure outcome, got {other:?}"),
    }
    // One query for each succeeding track, all three for the failing one.
    assert_eq!(fetcher.calls.len(), 5);
}

#[test]
fn fallback_reaches_the_plain_query() {
    let tracks = vec![track("Song", "Band", "LP")];
    let mut fetcher = ScriptFetcher::ok("out.mp3");
    fetcher.succeed_only_on = Some("Song Band".to_string());
    let mut tagger = ScriptTagger::ok();
    let mut progress = ProgressLog::new();
    let mut cancel = NeverCancel;
    let r = convert_playlist(
        &tracks,
        &settings(false),
        &mut fetcher,
        &mut tagger,
        &mut progress,
        &mut cancel,
    );
    assert_eq!(
        fetcher.calls,
        vec![
            "Song Band topic".to_string(),
            "Song Band official audio".to_string(),
            "Song Band".to_string(),
        ]
    );
    assert!(matches!(&r.outcomes[0], Outcome::Success { file } if file == "out.mp3"));
    assert_eq!(r.succeeded, 1);
    assert_eq!(r.status(), BatchStatus::AllSucceeded);
}

#[test]
fn cancellation_after_two_tracks_marks_the_rest() {
    let tracks = vec![
        track("T1", "A", ""),
        track("T2", "A", ""),
        track("T3", "A", ""),
        track("T4", "A", ""),
        track("T5", "A", ""),
    ];
    let mut fetcher = ScriptFetcher::ok("out.mp3");
    let mut tagger = ScriptTagger::ok();
    let mut progress = ProgressLog::new();
    let mut cancel = CancelAfter { seen: 0, after: 2 };
    let r = convert_playlist(
        &tracks,
        &settings(false),
        &mut fetcher,
        &mut tagger,
        &mut progress,
        &mut cancel,
    );
    assert_eq!(r.outcomes.len(), 5);
    assert_eq!(r.attempted, 2);
    assert!(matches!(&r.outcomes[0], Outcome::Success { .. }));
    assert!(matches!(&r.outcomes[1], Outcome::Success { .. }));
    for k in 2..5 {
        assert!(matches!(&r.outcomes[k], Outcome::Cancelled));
    }
    assert_eq!(r.status(), BatchStatus::PartialSuccess);
    // Progress was reported once per attempted track, before the attempt,
    // labelled with the track's title.
    assert_eq!(
        progress.entries,
        vec![(0, 5, "T1".to_string()), (1, 5, "T2".to_string())]
    );
}

#[test]
fn progress_reports_are_monotone_and_bounded() {
    let tracks = vec![track("A", "x", ""), track("B", "x", ""), track("C", "x", "")];
    let mut fetcher = ScriptFetcher::ok("out.mp3");
    let mut tagger = ScriptTagger::ok();
    let mut progress = ProgressLog::new();
    let mut cancel = NeverCancel;
    let _ = convert_playlist(
        &tracks,
        &settings(false),
        &mut fetcher,
        &mut tagger,
        &mut progress,
        &mut cancel,
    );
    assert_eq!(
        progress.entries,
        vec![(0, 3, "A".to_string()), (1, 3, "B".to_string()), (2, 3, "C".to_string())]
    );
    for w in progress.entries.windows(2) {
        assert!(w[0].0 <= w[1].0);
    }
    for e in &progress.entries {
        assert!(e.0 <= e.1);
    }
}

#[test]
fn an_outside_progress_sink_receives_each_report() {
    let tracks = vec![track("A", "x", ""), track("B", "x", "")];
    let mut fetcher = ScriptFetcher::ok("out.mp3");
    let mut tagger = ScriptTagger::ok();
    let mut sink = CountingSink { n: 0 };
    let mut cancel = NeverCancel;
    let r = convert_playlist(
        &tracks,
        &settings(false),
        &mut fetcher,
        &mut tagger,
        &mut sink,
        &mut cancel,
    );
    assert_eq!(sink.n, 2);
    assert_eq!(r.succeeded, 2);
}

#[test]
fn invalid_compressed_file_is_refused_per_track() {
    let tracks = vec![track("A", "x", "")];
    let mut fetcher = ScriptFetcher::ok("f.mp3");
    let mut tagger = ScriptTagger::ok();
    tagger.header = b"XXX".to_vec();
    let mut progress = ProgressLog::new();
    let mut cancel = NeverCancel;
    let r = convert_playlist(
        &tracks,
        &settings(true),
        &mut fetcher,
        &mut tagger,
        &mut progress,
        &mut cancel,
    );
    assert!(matches!(
        &r.outcomes[0],
        Outcome::Failure { error: TrackError::InvalidFormat, .. }
    ));
    assert!(tagger.writes.is_empty());
    assert_eq!(r.status(), BatchStatus::NoSuccesses);
}

#[test]
fn valid_compressed_file_gets_compressed_schema() {
    let tracks = vec![track("T", "A", "L")];
    let mut fetcher = ScriptFetcher::ok("f.mp3");
    let mut tagger = ScriptTagger::ok();
    let mut progress = ProgressLog::new();
    let mut cancel = NeverCancel;
    let r = convert_playlist(
        &tracks,
        &settings(true),
        &mut fetcher,
        &mut tagger,
        &mut progress,
        &mut cancel,
    );
    assert!(matches!(&r.outcomes[0], Outcome::Success { .. }));
    assert_eq!(tagger.writes.len(), 1);
    let w = &tagger.writes[0];
    assert_eq!(w.0, "f.mp3");
    assert_eq!(w.1, TagKind::Id3v2);
    assert_eq!((w.2.as_str(), w.3.as_str(), w.4.as_str()), ("T", "A", "L"));
}

#[test]
fn mp4_file_gets_mp4_schema() {
    let tracks = vec![track("T", "A", "L")];
    let mut fetcher = ScriptFetcher::ok("f.m4a");
    let mut tagger = ScriptTagger::ok();
    let mut progress = ProgressLog::new();
    let mut cancel = NeverCancel;
    let r = convert_playlist(
        &tracks,
        &settings(false),
        &mut fetcher,
        &mut tagger,
        &mut progress,
        &mut cancel,
    );
    assert!(matches!(&r.outcomes[0], Outcome::Success { .. }));
    assert_eq!(tagger.writes.len(), 1);
    assert_eq!(tagger.writes[0].1, TagKind::Mp4Ilst);
}

#[test]
fn tag_write_failure_is_a_per_track_failure() {
    let tracks = vec![track("T", "A", "L")];
    let mut fetcher = ScriptFetcher::ok("f.m4a");
    let mut tagger = ScriptTagger::ok();
    tagger.fail_write = true;
    let mut progress = ProgressLog::new();
    let mut cancel = NeverCancel;
    let r = convert_playlist(
        &tracks,
        &settings(false),
        &mut fetcher,
        &mut tagger,
        &mut progress,
        &mut cancel,
    );
    match &r.outcomes[0] {
        Outcome::Failure { error, attempted } => {
            assert!(matches!(error, TrackError::TagWriteError { .. }));
            assert_eq!(attempted.len(), 1);
        }
        other => panic!("expected a failure outcome, got {other:?}"),
    }
}

#[test]
fn all_fetches_failing_is_no_successes() {
    let tracks = vec![track("One", "A", ""), track("Two", "B", "")];
    let mut fetcher = ScriptFetcher::ok("out.mp3");
    fetcher.fail_needle = Some(" ".to_string());
    let mut tagger = ScriptTagger::ok();
    let mut progress = ProgressLog::new();
    let mut cancel = NeverCancel;
    let r = convert_playlist(
        &tracks,
        &settings(false),
        &mut fetcher,
        &mut tagger,
        &mut progress,
        &mut cancel,
    );
    assert_eq!(r.succeeded, 0);
    assert_eq!(r.attempted, 2);
    assert_eq!(r.status(), BatchStatus::NoSuccesses);
    assert_eq!(r.failure_count(), 2);
}

#[test]
fn empty_track_list_is_a_trivially_successful_run() {
    let tracks: Vec<TrackInfo> = Vec::new();
    let mut fetcher = ScriptFetcher::ok("out.mp3");
    let mut tagger = ScriptTagger::ok();
    let mut progress = ProgressLog::new();
    let mut cancel = NeverCancel;
    let r = convert_playlist(
        &tracks,
        &settings(false),
        &mut fetcher,
        &mut tagger,
        &mut progress,
        &mut cancel,
    );
    assert!(r.outcomes.is_empty());
    assert_eq!(r.attempted, 0);
    assert_eq!(r.status(), BatchStatus::AllSucceeded);
    assert!(progress.entries.is_empty());
}

#[test]
fn progress_log_starts_empty() {
    let log = ProgressLog::new();
    assert!(log.entries.is_empty());
}

#[test]
fn scripted_capabilities_drive_the_pipeline() {
    let tracks = vec![track("T", "A", "L")];
    // The script is consumed from the back: the two specific queries fail
    // and the plain one succeeds on the third call.
    let mut fetcher = ScriptedFetcher::new(vec![
        Ok("song.m4a".to_string()),
        Err(FetchError::Failed { stderr: "second".to_string() }),
        Err(FetchError::Failed { stderr: "first".to_string() }),
    ]);
    let mut tagger = ScriptedTagger::new(Vec::new(), Vec::new());
    let mut progress = ProgressLog::new();
    let mut cancel = CountdownCancel::new(5);
    let r = convert_playlist(
        &tracks,
        &settings(false),
        &mut fetcher,
        &mut tagger,
        &mut progress,
        &mut cancel,
    );
    assert!(matches!(&r.outcomes[0], Outcome::Success { file } if file == "song.m4a"));
    assert!(fetcher.script.is_empty());
    assert_eq!(r.succeeded, 1);
    assert_eq!(progress.entries, vec![(0, 1, "T".to_string())]);
}

#[test]
fn countdown_cancel_stops_a_scripted_run() {
    let tracks = vec![track("T1", "A", ""), track("T2", "A", ""), track("T3", "A", "")];
    let mut fetcher = ScriptedFetcher::new(vec![Ok("a.mp3".to_string())]);
    let mut tagger = ScriptedTagger::new(Vec::new(), Vec::new());
    let mut progress = ProgressLog::new();
    let mut cancel = CountdownCancel::new(1);
    let r = convert_playlist(
        &tracks,
        &settings(false),
        &mut fetcher,
        &mut tagger,
        &mut progress,
        &mut cancel,
    );
    assert_eq!(r.attempted, 1);
    assert!(matches!(&r.outcomes[0], Outcome::Success { .. }));
    assert!(matches!(&r.outcomes[1], Outcome::Cancelled));
    assert!(matches!(&r.outcomes[2], Outcome::Cancelled));
}
