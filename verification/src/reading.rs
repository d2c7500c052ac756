//! Reading artifacts out of the store.
use crate::artifact::{Artifact, ArtifactView, State, StateView};
use crate::error::{DialogArtifactsError, ErrorView};
use crate::key::{parts_in, KeyKind, Parts};
use crate::protocol::{Entry, EntryView, Process, Reply, ReplyView, Request, RequestView};
use crate::revision::unit_outcome;
use crate::selector::{ArtifactSelector, KeyRange, RangeView, SelectorView};
use vstd::prelude::*;

verus! {

/// How far a reading has come.
#[derive(Debug)]
pub enum ReadingPhase {
    /// Waits to go through the entries.
    Scan,
    /// Waits for the next entry.
    Next,
    /// Waits until the artifact is handed out.
    Emit(Artifact),
    /// Has come to its end.
    Finished(Result<(), DialogArtifactsError>),
}

/// The process that reads the artifacts which a selector asks for, or all, and
/// hands them out, or writes them as rows.
#[derive(Debug)]
pub struct Reading {
    kind: KeyKind,
    range: KeyRange,
    selector: Option<ArtifactSelector>,
    rows: bool,
    phase: ReadingPhase,
}

/// How far a reading has come.
pub enum ReadingPhaseView {
    Scan,
    Next,
    Emit(ArtifactView),
    Finished(Result<(), ErrorView>),
}

/// A reading: the kind and the range of the keys that it goes through, what is
/// asked for, whether the artifacts are written as rows, and how far the reading
/// has come.
pub struct ReadingView {
    pub kind: KeyKind,
    pub range: RangeView,
    pub selector: Option<SelectorView>,
    pub rows: bool,
    pub phase: ReadingPhaseView,
}

impl View for ReadingPhase {
    type V = ReadingPhaseView;

    open spec fn view(&self) -> ReadingPhaseView {
        match *self {
            ReadingPhase::Scan => ReadingPhaseView::Scan,
            ReadingPhase::Next => ReadingPhaseView::Next,
            ReadingPhase::Emit(artifact) => ReadingPhaseView::Emit(artifact@),
            ReadingPhase::Finished(outcome) => ReadingPhaseView::Finished(unit_outcome(outcome)),
        }
    }
}

impl View for Reading {
    type V = ReadingView;

    closed spec fn view(&self) -> ReadingView {
        ReadingView {
            kind: self.kind,
            range: self.range@,
            selector: match self.selector {
                Some(selector) => Some(selector@),
                None => None,
            },
            rows: self.rows,
            phase: self.phase@,
        }
    }
}

impl ReadingView {
    /// The reading with another phase.
    pub open spec fn at(self, phase: ReadingPhaseView) -> ReadingView {
        ReadingView { phase, ..self }
    }

    /// The reading of what a selector asks for, at its start.
    pub open spec fn of_selector(selector: SelectorView) -> ReadingView {
        ReadingView {
            kind: selector.kind(),
            range: selector.range(),
            selector: Some(selector),
            rows: false,
            phase: ReadingPhaseView::Scan,
        }
    }

    /// The reading of all artifacts, at its start.
    pub open spec fn of_all(rows: bool) -> ReadingView {
        ReadingView {
            kind: KeyKind::Entity,
            range: RangeView::all(KeyKind::Entity),
            selector: None,
            rows,
            phase: ReadingPhaseView::Scan,
        }
    }

    /// Whether a key is asked for.
    pub open spec fn wants(self, key: Seq<u8>) -> bool {
        self.selector matches Some(selector) ==> selector.matches_parts(parts_in(self.kind, key))
    }

    /// What an entry adds to what is read: nothing where its key is not asked
    /// for or the artifact was retracted, else the artifact that is stored there,
    /// or why it cannot be read.
    pub open spec fn read(self, entry: EntryView) -> Option<Result<ArtifactView, ErrorView>> {
        if self.wants(entry.key) {
            match entry.value {
                StateView::Added(datum) => Some(datum.artifact()),
                StateView::Removed => None,
            }
        } else {
            None
        }
    }
}

impl Process for ReadingView {
    open spec fn request(self) -> Option<RequestView> {
        match self.phase {
            ReadingPhaseView::Scan => Some(RequestView::Scan(self.range)),
            ReadingPhaseView::Next => Some(RequestView::NextEntry),
            ReadingPhaseView::Emit(artifact) => Some(
                if self.rows {
                    RequestView::WriteRow(artifact)
                } else {
                    RequestView::Yield(artifact)
                },
            ),
            ReadingPhaseView::Finished(_) => None,
        }
    }

    open spec fn next(self, reply: ReplyView) -> Self {
        match (self.phase, reply) {
            (ReadingPhaseView::Finished(_), _) => self,
            (_, ReplyView::Failed(error)) => self.at(ReadingPhaseView::Finished(Err(error))),
            (ReadingPhaseView::Scan, ReplyView::Done) => self.at(ReadingPhaseView::Next),
            (ReadingPhaseView::Next, ReplyView::Entry(None)) => self.at(
                ReadingPhaseView::Finished(Ok(())),
            ),
            (ReadingPhaseView::Next, ReplyView::Entry(Some(entry))) => match self.read(entry) {
                Some(Ok(artifact)) => self.at(ReadingPhaseView::Emit(artifact)),
                Some(Err(error)) => self.at(ReadingPhaseView::Finished(Err(error))),
                None => self,
            },
            (ReadingPhaseView::Emit(_), ReplyView::Done) => self.at(ReadingPhaseView::Next),
            (ReadingPhaseView::Emit(_), ReplyView::RowFailed(message)) => self.at(
                ReadingPhaseView::Finished(Err(ErrorView::Export(message))),
            ),
            _ => self,
        }
    }
}

impl Reading {
    /// The reading of what a selector asks for, at its start.
    pub fn of_selector(selector: ArtifactSelector) -> (reading: Reading)
        ensures
            reading@ == ReadingView::of_selector(selector@),
            selector@.valid(),
    {
        Reading {
            kind: selector.kind(),
            range: selector.range(),
            selector: Some(selector),
            rows: false,
            phase: ReadingPhase::Scan,
        }
    }

    /// The reading of all artifacts, at its start.
    pub fn of_all(rows: bool) -> (reading: Reading)
        ensures
            reading@ == ReadingView::of_all(rows),
    {
        Reading {
            kind: KeyKind::Entity,
            range: KeyRange::all(KeyKind::Entity),
            selector: None,
            rows,
            phase: ReadingPhase::Scan,
        }
    }

    /// How far the reading has come.
    pub fn phase(&self) -> (phase: &ReadingPhase)
        ensures
            phase@ == self@.phase,
    {
        &self.phase
    }

    /// The request that the process waits for an answer to; none at its end.
    pub fn request(&self) -> (request: Option<Request>)
        ensures
            match request {
                Some(request) => self@.request() == Some(request@),
                None => self@.request() is None,
            },
    {
        match &self.phase {
            ReadingPhase::Scan => Some(Request::Scan(self.range)),
            ReadingPhase::Next => Some(Request::NextEntry),
            ReadingPhase::Emit(artifact) => if self.rows {
                Some(Request::WriteRow(artifact.clone()))
            } else {
                Some(Request::Yield(artifact.clone()))
            },
            ReadingPhase::Finished(_) => None,
        }
    }

    /// What an entry adds to what is read.
    fn read(&self, entry: Entry) -> (read: Option<Result<Artifact, DialogArtifactsError>>)
        ensures
            self@.read(entry@) == match read {
                Some(Ok(artifact)) => Some(Ok::<ArtifactView, ErrorView>(artifact@)),
                Some(Err(error)) => Some(Err(error@)),
                None => None,
            },
    {
        if let Some(selector) = &self.selector {
            if !selector.matches(&Parts::in_key(self.kind, &entry.key)) {
                return None;
            }
        }
        match entry.value {
            State::Added(datum) => Some(datum.to_artifact()),
            State::Removed => None,
        }
    }

    /// The process after a reply.
    pub fn resume(self, reply: Reply) -> (next: Self)
        ensures
            next@ == self@.next(reply@),
    {
        let Reading { kind, range, selector, rows, phase } = self;
        let waiting = Reading { kind, range, selector, rows, phase: ReadingPhase::Next };
        let phase = match (phase, reply) {
            (ReadingPhase::Finished(outcome), _) => ReadingPhase::Finished(outcome),
            (_, Reply::Failed(error)) => ReadingPhase::Finished(Err(error)),
            (ReadingPhase::Scan, Reply::Done) => ReadingPhase::Next,
            (ReadingPhase::Next, Reply::Entry(None)) => ReadingPhase::Finished(Ok(())),
            (ReadingPhase::Next, Reply::Entry(Some(entry))) => match waiting.read(entry) {
                Some(Ok(artifact)) => ReadingPhase::Emit(artifact),
                Some(Err(error)) => ReadingPhase::Finished(Err(error)),
                None => ReadingPhase::Next,
            },
            (ReadingPhase::Emit(_), Reply::Done) => ReadingPhase::Next,
            (ReadingPhase::Emit(_), Reply::RowFailed(message)) => ReadingPhase::Finished(
                Err(DialogArtifactsError::Export(message)),
            ),
            (phase, _) => phase,
        };
        Reading { phase, ..waiting }
    }
}

} // verus!
