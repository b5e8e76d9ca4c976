//! The pipeline driver: it takes the segments of a document through the
//! translation client one by one and has each result appended to the output
//! sink before the next segment is taken up.
//!
//! The driver itself neither translates nor writes. It is a state machine:
//! its state names the action that is due, and the caller reports what came
//! of the action.

use crate::segmenter::{lemma_split_of_blank, split, split_text_smartly};
use crate::text::words_of;
use vstd::prelude::*;
use vstd::string::*;

verus! {

/// The segment length that the pipeline is run with.
pub const DEFAULT_MAX_LEN: usize = 700;

/// The record that is appended to the output for a segment whose translation
/// is `translated`: the text, the end of its line, and an empty line.
pub open spec fn record_text(translated: Seq<char>) -> Seq<char> {
    translated + seq!['\n', '\n']
}

/// Builds the output record for the translation `translated`.
pub fn output_record(translated: &str) -> (record: String)
    ensures
        record@ == record_text(translated@),
{
    proof {
        reveal_strlit("\n\n");
    }
    let mut record = String::from_str(translated);
    record.append("\n\n");
    record
}

/// How far a run has come.
enum Stage {
    Opening,
    Translating { index: usize },
    Appending { index: usize, record: String },
    Finished,
    Failed,
}

/// How far a run has come.
pub enum StageView {
    /// The output sink is to be created, or emptied if it exists.
    Opening,
    /// The segment at `index` is to be translated.
    Translating { index: nat },
    /// `record`, made of the translation of the segment at `index`, is to
    /// be appended to the output sink.
    Appending { index: nat, record: Seq<char> },
    /// The result of every segment was appended.
    Finished,
    /// The output sink failed, and the run with it.
    Failed,
}

/// A run of the pipeline over the segments of one document.
pub struct Pipeline {
    segments: Vec<String>,
    stage: Stage,
}

/// The view of a `Pipeline`: its segments and its stage.
pub struct PipelineView {
    pub segments: Seq<Seq<char>>,
    pub stage: StageView,
}

impl View for Pipeline {
    type V = PipelineView;

    closed spec fn view(&self) -> PipelineView {
        PipelineView {
            segments: self.segments.deep_view(),
            stage: match self.stage {
                Stage::Opening => StageView::Opening,
                Stage::Translating { index } => StageView::Translating { index: index as nat },
                Stage::Appending { index, record } => StageView::Appending {
                    index: index as nat,
                    record: record@,
                },
                Stage::Finished => StageView::Finished,
                Stage::Failed => StageView::Failed,
            },
        }
    }
}

/// What the caller reports to the driver.
#[derive(Debug, Clone, PartialEq, Eq)]
pub enum RunEvent {
    /// The output sink was created or emptied.
    SinkReady,
    /// The output sink could not be created, emptied or appended to.
    SinkFailed,
    /// The translation client finished with this text.
    Translated(String),
    /// The record was appended to the output sink.
    Appended,
}

/// The view of a `RunEvent`.
pub enum RunEventView {
    SinkReady,
    SinkFailed,
    Translated(Seq<char>),
    Appended,
}

impl View for RunEvent {
    type V = RunEventView;

    open spec fn view(&self) -> RunEventView {
        match self {
            RunEvent::SinkReady => RunEventView::SinkReady,
            RunEvent::SinkFailed => RunEventView::SinkFailed,
            RunEvent::Translated(text) => RunEventView::Translated(text@),
            RunEvent::Appended => RunEventView::Appended,
        }
    }
}

/// What the driver asks of the caller.
#[derive(Debug, Clone, PartialEq, Eq)]
pub enum RunAction {
    /// Create the output sink, or empty it, and report whether that worked.
    TruncateOutput,
    /// Have the translation client translate `segment` and report its
    /// result. `segment` is the `number`-th of `total` segments, counted
    /// from one, and holds `length` characters.
    Translate { number: usize, total: usize, length: usize, segment: String },
    /// Append `record` to the output sink and report whether that worked.
    Append { record: String },
    /// Nothing more: the run succeeded.
    ReportSuccess,
    /// Nothing more: the run failed with the failure of the output sink.
    Abort,
}

/// The view of a `RunAction`.
pub enum RunActionView {
    TruncateOutput,
    Translate { number: nat, total: nat, length: nat, segment: Seq<char> },
    Append { record: Seq<char> },
    ReportSuccess,
    Abort,
}

impl View for RunAction {
    type V = RunActionView;

    open spec fn view(&self) -> RunActionView {
        match self {
            RunAction::TruncateOutput => RunActionView::TruncateOutput,
            RunAction::Translate { number, total, length, segment } => RunActionView::Translate {
                number: *number as nat,
                total: *total as nat,
                length: *length as nat,
                segment: segment@,
            },
            RunAction::Append { record } => RunActionView::Append { record: record@ },
            RunAction::ReportSuccess => RunActionView::ReportSuccess,
            RunAction::Abort => RunActionView::Abort,
        }
    }
}

impl PipelineView {
    /// A run is well formed if the segment it is busy with is one of its
    /// segments.
    pub open spec fn wf(self) -> bool {
        match self.stage {
            StageView::Translating { index } => index < self.segments.len(),
            StageView::Appending { index, .. } => index < self.segments.len(),
            _ => true,
        }
    }
}

/// The run over `segments` before anything was done.
pub open spec fn initial_run(segments: Seq<Seq<char>>) -> PipelineView {
    PipelineView { segments, stage: StageView::Opening }
}

/// The stage of a run over `segments` that is through with the segments
/// before `index`: the segment at `index` is next, if there is one.
pub open spec fn stage_before(segments: Seq<Seq<char>>, index: nat) -> StageView {
    if index < segments.len() {
        StageView::Translating { index }
    } else {
        StageView::Finished
    }
}

/// The action that is due in `run`.
pub open spec fn action_of(run: PipelineView) -> RunActionView {
    match run.stage {
        StageView::Opening => RunActionView::TruncateOutput,
        StageView::Translating { index } => RunActionView::Translate {
            number: index + 1,
            total: run.segments.len(),
            length: run.segments[index as int].len(),
            segment: run.segments[index as int],
        },
        StageView::Appending { record, .. } => RunActionView::Append { record },
        StageView::Finished => RunActionView::ReportSuccess,
        StageView::Failed => RunActionView::Abort,
    }
}

/// The run that follows `run` when the caller reports `event`. Once the
/// sink is ready the segments are taken up in order, each one translated
/// and its record appended before the next. A failure of the sink ends the
/// run at once. An event that does not answer the action due in `run`
/// changes nothing.
pub open spec fn next_run(run: PipelineView, event: RunEventView) -> PipelineView {
    PipelineView {
        segments: run.segments,
        stage: match (run.stage, event) {
            (StageView::Opening, RunEventView::SinkReady) => stage_before(run.segments, 0),
            (StageView::Opening, RunEventView::SinkFailed) => StageView::Failed,
            (StageView::Translating { index }, RunEventView::Translated(text)) => {
                StageView::Appending { index, record: record_text(text) }
            },
            (StageView::Appending { index, .. }, RunEventView::Appended) => stage_before(
                run.segments,
                index + 1,
            ),
            (StageView::Appending { .. }, RunEventView::SinkFailed) => StageView::Failed,
            _ => run.stage,
        },
    }
}

/// What comes of a run: the segments that were handed to the translation
/// client, the records that were appended to the output sink, both in the
/// order in which that happened, and the stage at which the run stood in the
/// end.
pub struct RunTrace {
    pub asked: Seq<Seq<char>>,
    pub appended: Seq<Seq<char>>,
    pub end: StageView,
}

/// The records of `translations`, in order.
pub open spec fn records_of(translations: Seq<Seq<char>>) -> Seq<Seq<char>> {
    Seq::new(translations.len(), |i: int| record_text(translations[i]))
}

/// A measure that falls with each step of a run that takes up no segment.
pub open spec fn stage_rank(stage: StageView) -> nat {
    match stage {
        StageView::Opening => 2,
        StageView::Appending { .. } => 1,
        _ => 0,
    }
}

/// What comes of `run` when the caller does what the driver asks, the
/// translation client finishes the segments that are handed to it with
/// `translations`, one after the other, and the output sink works
/// `sink_ops` times and fails from then on. The run goes on until nothing
/// more is due or `translations` are used up.
pub open spec fn run_pipeline(
    run: PipelineView,
    translations: Seq<Seq<char>>,
    sink_ops: nat,
) -> RunTrace
    decreases translations.len(), stage_rank(run.stage),
{
    match action_of(run) {
        RunActionView::TruncateOutput => {
            if sink_ops == 0 {
                run_pipeline(next_run(run, RunEventView::SinkFailed), translations, 0)
            } else {
                run_pipeline(
                    next_run(run, RunEventView::SinkReady),
                    translations,
                    (sink_ops - 1) as nat,
                )
            }
        },
        RunActionView::Translate { segment, .. } => {
            if translations.len() == 0 {
                RunTrace { asked: Seq::empty(), appended: Seq::empty(), end: run.stage }
            } else {
                let rest = run_pipeline(
                    next_run(run, RunEventView::Translated(translations[0])),
                    translations.skip(1),
                    sink_ops,
                );
                RunTrace {
                    asked: seq![segment] + rest.asked,
                    appended: rest.appended,
                    end: rest.end,
                }
            }
        },
        RunActionView::Append { record } => {
            if sink_ops == 0 {
                run_pipeline(next_run(run, RunEventView::SinkFailed), translations, 0)
            } else {
                let rest = run_pipeline(
                    next_run(run, RunEventView::Appended),
                    translations,
                    (sink_ops - 1) as nat,
                );
                RunTrace {
                    asked: rest.asked,
                    appended: seq![record] + rest.appended,
                    end: rest.end,
                }
            }
        },
        _ => RunTrace { asked: Seq::empty(), appended: Seq::empty(), end: run.stage },
    }
}

/// A run that is through with the segments before `index` takes up the
/// others in order. If the sink works for each of them the run finishes
/// with a record for each; if not, it fails at the first record that
/// cannot be appended, and takes up no segment after that one.
proof fn lemma_run_from(
    segments: Seq<Seq<char>>,
    index: nat,
    translations: Seq<Seq<char>>,
    sink_ops: nat,
)
    requires
        index <= segments.len(),
        translations.len() == segments.len() - index,
    ensures
        sink_ops >= translations.len() ==> run_pipeline(
            PipelineView { segments, stage: stage_before(segments, index) },
            translations,
            sink_ops,
        ) == (RunTrace {
            asked: segments.skip(index as int),
            appended: records_of(translations),
            end: StageView::Finished,
        }),
        sink_ops < translations.len() ==> run_pipeline(
            PipelineView { segments, stage: stage_before(segments, index) },
            translations,
            sink_ops,
        ) == (RunTrace {
            asked: segments.subrange(index as int, index as int + sink_ops + 1),
            appended: records_of(translations.take(sink_ops as int)),
            end: StageView::Failed,
        }),
    decreases segments.len() - index,
{
    let run = PipelineView { segments, stage: stage_before(segments, index) };
    if index == segments.len() {
        assert(segments.skip(index as int) =~= Seq::<Seq<char>>::empty());
        assert(records_of(translations) =~= Seq::<Seq<char>>::empty());
    } else {
        let record = record_text(translations[0]);
        let appending = PipelineView {
            segments,
            stage: StageView::Appending { index, record },
        };
        let rest = translations.skip(1);
        assert(next_run(run, RunEventView::Translated(translations[0])) == appending);
        if sink_ops == 0 {
            let failed = PipelineView { segments, stage: StageView::Failed };
            assert(next_run(appending, RunEventView::SinkFailed) == failed);
            assert(run_pipeline(failed, rest, 0) == (RunTrace {
                asked: Seq::empty(),
                appended: Seq::empty(),
                end: StageView::Failed,
            }));
            assert(run_pipeline(appending, rest, 0) == run_pipeline(failed, rest, 0));
            assert(seq![segments[index as int]] + Seq::<Seq<char>>::empty()
                =~= segments.subrange(index as int, index as int + 1));
            assert(records_of(translations.take(0)) =~= Seq::<Seq<char>>::empty());
        } else {
            let left = (sink_ops - 1) as nat;
            let after = PipelineView { segments, stage: stage_before(segments, index + 1) };
            assert(next_run(appending, RunEventView::Appended) == after);
            lemma_run_from(segments, index + 1, rest, left);
            let tail = run_pipeline(after, rest, left);
            assert(run_pipeline(appending, rest, sink_ops) == (RunTrace {
                asked: tail.asked,
                appended: seq![record] + tail.appended,
                end: tail.end,
            }));
            if sink_ops >= translations.len() {
                assert(seq![segments[index as int]] + segments.skip(index as int + 1) =~= segments.skip(
                    index as int,
                ));
                assert(seq![record] + records_of(rest) =~= records_of(translations));
            } else {
                assert(seq![segments[index as int]] + segments.subrange(
                    index as int + 1,
                    index as int + 1 + left + 1,
                ) =~= segments.subrange(index as int, index as int + sink_ops + 1));
                assert(seq![record] + records_of(rest.take(left as int)) =~= records_of(
                    translations.take(sink_ops as int),
                ));
            }
        }
    }
}

/// While the output sink works, a run takes up every segment, in order, and
/// appends one record for each, in the same order, whatever the text that
/// the translation client finished with, `FAILURE_MARKER` included; then it
/// reports success.
pub proof fn lemma_run_completes(
    segments: Seq<Seq<char>>,
    translations: Seq<Seq<char>>,
    sink_ops: nat,
)
    requires
        translations.len() == segments.len(),
        sink_ops > segments.len(),
    ensures
        run_pipeline(initial_run(segments), translations, sink_ops) == (RunTrace {
            asked: segments,
            appended: records_of(translations),
            end: StageView::Finished,
        }),
{
    let run = initial_run(segments);
    let ready = PipelineView { segments, stage: stage_before(segments, 0) };
    assert(next_run(run, RunEventView::SinkReady) == ready);
    lemma_run_from(segments, 0, translations, (sink_ops - 1) as nat);
    assert(segments.skip(0) =~= segments);
}

/// A run whose output sink fails stops there. If the sink cannot be created
/// or emptied, no segment is taken up and nothing is appended. If a record
/// cannot be appended, the records before it stay appended, its segment is
/// the last that was taken up, and the run fails.
pub proof fn lemma_run_stops_when_sink_fails(
    segments: Seq<Seq<char>>,
    translations: Seq<Seq<char>>,
    sink_ops: nat,
)
    requires
        translations.len() == segments.len(),
        sink_ops <= segments.len(),
    ensures
        run_pipeline(initial_run(segments), translations, sink_ops) == (RunTrace {
            asked: segments.take(sink_ops as int),
            appended: if sink_ops == 0 {
                Seq::empty()
            } else {
                records_of(translations.take(sink_ops - 1))
            },
            end: StageView::Failed,
        }),
{
    let run = initial_run(segments);
    if sink_ops == 0 {
        let failed = PipelineView { segments, stage: StageView::Failed };
        assert(next_run(run, RunEventView::SinkFailed) == failed);
        assert(run_pipeline(failed, translations, 0) == (RunTrace {
            asked: Seq::empty(),
            appended: Seq::empty(),
            end: StageView::Failed,
        }));
        assert(segments.take(0) =~= Seq::<Seq<char>>::empty());
    } else {
        let ready = PipelineView { segments, stage: stage_before(segments, 0) };
        assert(next_run(run, RunEventView::SinkReady) == ready);
        lemma_run_from(segments, 0, translations, (sink_ops - 1) as nat);
        assert(segments.subrange(0, sink_ops as int) =~= segments.take(sink_ops as int));
    }
}

/// A document without a word has no segment: once its output sink is
/// emptied the run reports success, and nothing is translated or appended.
pub proof fn lemma_blank_document_appends_nothing(
    document: Seq<char>,
    max_len: nat,
    sink_ops: nat,
)
    requires
        words_of(document).len() == 0,
        sink_ops > 0,
    ensures
        run_pipeline(initial_run(split(document, max_len)), Seq::empty(), sink_ops) == (RunTrace {
            asked: Seq::empty(),
            appended: Seq::empty(),
            end: StageView::Finished,
        }),
{
    let segments = split(document, max_len);
    lemma_split_of_blank(document, max_len);
    lemma_run_completes(segments, Seq::empty(), sink_ops);
    assert(records_of(Seq::empty()) =~= Seq::<Seq<char>>::empty());
}

impl Pipeline {
    #[verifier::type_invariant]
    spec fn inv(self) -> bool {
        match self.stage {
            Stage::Translating { index } => index < self.segments.len(),
            Stage::Appending { index, .. } => index < self.segments.len(),
            _ => true,
        }
    }

    /// A run over the segments of `document` for the bound `max_len`.
    pub fn new(document: &str, max_len: usize) -> (run: Pipeline)
        ensures
            run@ == initial_run(split(document@, max_len as nat)),
    {
        Pipeline { segments: split_text_smartly(document, max_len), stage: Stage::Opening }
    }

    /// A run over `segments`.
    pub fn from_segments(segments: Vec<String>) -> (run: Pipeline)
        ensures
            run@ == initial_run(segments.deep_view()),
    {
        Pipeline { segments, stage: Stage::Opening }
    }

    /// The number of segments of the run.
    pub fn total(&self) -> (total: usize)
        ensures
            total == self@.segments.len(),
    {
        self.segments.len()
    }

    /// The action that is due.
    pub fn action(&self) -> (action: RunAction)
        ensures
            self@.wf(),
            action@ == action_of(self@),
    {
        proof {
            use_type_invariant(self);
        }
        match &self.stage {
            Stage::Opening => RunAction::TruncateOutput,
            Stage::Translating { index } => {
                let segment = &self.segments[*index];
                RunAction::Translate {
                    number: *index + 1,
                    total: self.segments.len(),
                    length: segment.as_str().unicode_len(),
                    segment: segment.clone(),
                }
            },
            Stage::Appending { record, .. } => RunAction::Append { record: record.clone() },
            Stage::Finished => RunAction::ReportSuccess,
            Stage::Failed => RunAction::Abort,
        }
    }

    /// Takes the report `event` and moves on.
    pub fn step(self, event: RunEvent) -> (next: Pipeline)
        ensures
            next@ == next_run(self@, event@),
    {
        proof {
            use_type_invariant(&self);
        }
        let Pipeline { segments, stage } = self;
        let total = segments.len();
        let stage = match (stage, event) {
            (Stage::Opening, RunEvent::SinkReady) => {
                if 0 < total {
                    Stage::Translating { index: 0 }
                } else {
                    Stage::Finished
                }
            },
            (Stage::Opening, RunEvent::SinkFailed) => Stage::Failed,
            (Stage::Translating { index }, RunEvent::Translated(text)) => Stage::Appending {
                index,
                record: output_record(text.as_str()),
            },
            (Stage::Appending { index, .. }, RunEvent::Appended) => {
                if index + 1 < total {
                    Stage::Translating { index: index + 1 }
                } else {
                    Stage::Finished
                }
            },
            (Stage::Appending { .. }, RunEvent::SinkFailed) => Stage::Failed,
            (stage, _) => stage,
        };
        Pipeline { segments, stage }
    }
}

} // verus!
