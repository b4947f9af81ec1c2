//! The publication of documents as a transaction: every publication that is
//! begun ends in exactly one way.

use vstd::prelude::*;

use crate::plan::texts;

verus! {

/// A step in the publication of documents and entries.
#[derive(Debug)]
pub enum DocumentPublicationEvent {
    /// A publication begins.
    Begin,
    /// The stale documents that still have a fallback on disk.
    SnapshotLazyFallbacks(Vec<String>),
    /// From here on documents may change.
    DocumentMutationStarted,
    /// This document is about to change.
    DocumentWriteStarted(String),
    /// This document has been written.
    DocumentWriteCompleted(String),
    /// These documents are gone.
    DocumentPathsRemoved(Vec<String>),
    /// Documents and entries are published.
    CommitPublished,
    /// The document is ready when it is asked for.
    CommitReadyOnRequest,
    /// A request has repaired a document that had failed.
    CommitLazyRepair,
    /// No document was to be expected.
    CommitNotExpected,
    /// Entries are published; there were no documents.
    CommitEntriesOnly,
    /// Nothing has changed.
    AbortBeforeDocumentWrite,
    /// Documents may have changed, and the publication is not complete.
    LeavePending,
}

/// What a [`DocumentPublicationEvent`] says.
pub enum Event {
    Begin,
    SnapshotLazyFallbacks(Seq<Seq<char>>),
    DocumentMutationStarted,
    DocumentWriteStarted(Seq<char>),
    DocumentWriteCompleted(Seq<char>),
    DocumentPathsRemoved(Seq<Seq<char>>),
    CommitPublished,
    CommitReadyOnRequest,
    CommitLazyRepair,
    CommitNotExpected,
    CommitEntriesOnly,
    AbortBeforeDocumentWrite,
    LeavePending,
}

impl View for DocumentPublicationEvent {
    type V = Event;

    open spec fn view(&self) -> Event {
        match self {
            DocumentPublicationEvent::Begin => Event::Begin,
            DocumentPublicationEvent::SnapshotLazyFallbacks(p) => Event::SnapshotLazyFallbacks(
                texts(p@),
            ),
            DocumentPublicationEvent::DocumentMutationStarted => Event::DocumentMutationStarted,
            DocumentPublicationEvent::DocumentWriteStarted(p) => Event::DocumentWriteStarted(p@),
            DocumentPublicationEvent::DocumentWriteCompleted(p) => Event::DocumentWriteCompleted(
                p@,
            ),
            DocumentPublicationEvent::DocumentPathsRemoved(p) => Event::DocumentPathsRemoved(
                texts(p@),
            ),
            DocumentPublicationEvent::CommitPublished => Event::CommitPublished,
            DocumentPublicationEvent::CommitReadyOnRequest => Event::CommitReadyOnRequest,
            DocumentPublicationEvent::CommitLazyRepair => Event::CommitLazyRepair,
            DocumentPublicationEvent::CommitNotExpected => Event::CommitNotExpected,
            DocumentPublicationEvent::CommitEntriesOnly => Event::CommitEntriesOnly,
            DocumentPublicationEvent::AbortBeforeDocumentWrite => Event::AbortBeforeDocumentWrite,
            DocumentPublicationEvent::LeavePending => Event::LeavePending,
        }
    }
}

/// What a list of events says.
pub open spec fn events_view(list: Seq<DocumentPublicationEvent>) -> Seq<Event> {
    list.map_values(|e: DocumentPublicationEvent| e@)
}

/// The event ends a publication.
pub open spec fn ends(e: Event) -> bool {
    match e {
        Event::CommitPublished
        | Event::CommitReadyOnRequest
        | Event::CommitLazyRepair
        | Event::CommitNotExpected
        | Event::CommitEntriesOnly
        | Event::AbortBeforeDocumentWrite
        | Event::LeavePending => true,
        _ => false,
    }
}

/// The event says that a document is about to change, or has.
pub open spec fn mutates(e: Event) -> bool {
    match e {
        Event::DocumentMutationStarted
        | Event::DocumentWriteStarted(_)
        | Event::DocumentWriteCompleted(_)
        | Event::DocumentPathsRemoved(_) => true,
        _ => false,
    }
}

/// How many of the events end a publication.
pub open spec fn endings(log: Seq<Event>) -> nat
    decreases log.len(),
{
    if log.len() == 0 {
        0
    } else {
        endings(log.drop_last()) + if ends(log.last()) {
            1nat
        } else {
            0nat
        }
    }
}

/// How a publication ends if nothing commits it.
#[derive(Debug, Clone, Copy, PartialEq, Eq, Structural)]
pub enum Fallback {
    /// Nothing to end: none was begun, or it is committed.
    Settled,
    /// No document has been touched.
    Abort,
    /// Documents may have changed.
    Pending,
}

/// Where a publication stands.
pub struct Publication {
    /// Whether one was begun.
    pub begun: bool,
    /// How it ends if nothing commits it.
    pub fallback: Fallback,
    /// The events so far.
    pub log: Seq<Event>,
}

impl Publication {
    /// The events fit how the publication stands: it was begun first, it has
    /// ended where it is settled and nowhere else, and where it would still be
    /// aborted no document has been touched.
    pub open spec fn coherent(self) -> bool {
        &&& self.begun ==> self.log.len() > 0 && self.log[0] == Event::Begin
        &&& !self.begun ==> self.fallback == Fallback::Settled && endings(self.log) == 0
        &&& self.begun ==> endings(self.log) == (if self.fallback == Fallback::Settled {
            1nat
        } else {
            0nat
        })
        &&& self.fallback == Fallback::Abort ==> forall|i: int|
            0 <= i < self.log.len() ==> !mutates(#[trigger] self.log[i])
    }

    /// Where a publication stands when it may be begun.
    pub open spec fn start(relevant: bool) -> Publication {
        if relevant {
            Publication { begun: true, fallback: Fallback::Abort, log: seq![Event::Begin] }
        } else {
            Publication { begun: false, fallback: Fallback::Settled, log: Seq::empty() }
        }
    }

    /// One more event.
    pub open spec fn emitted(self, e: Event) -> Publication {
        Publication { log: self.log.push(e), ..self }
    }

    /// Documents may change from here on.
    pub open spec fn mutation_started(self) -> Publication {
        if self.fallback == Fallback::Abort {
            Publication {
                fallback: Fallback::Pending,
                log: self.log.push(Event::DocumentMutationStarted),
                ..self
            }
        } else {
            self
        }
    }

    /// The document at `path` is about to change.
    pub open spec fn write_started(self, path: Seq<char>) -> Publication {
        self.mutation_started().emitted(Event::DocumentWriteStarted(path))
    }

    /// The document at `path` has been written.
    pub open spec fn write_completed(self, path: Seq<char>) -> Publication {
        self.emitted(Event::DocumentWriteCompleted(path))
    }

    /// The documents at `paths` are gone; silent where there are none.
    pub open spec fn paths_removed(self, paths: Seq<Seq<char>>) -> Publication {
        if paths.len() == 0 {
            self
        } else {
            self.emitted(Event::DocumentPathsRemoved(paths))
        }
    }

    /// The publication is committed.
    pub open spec fn committed(self, e: Event) -> Publication {
        Publication { fallback: Fallback::Settled, log: self.log.push(e), ..self }
    }

    /// The publication is over, committed or not.
    pub open spec fn closed(self) -> Publication {
        match self.fallback {
            Fallback::Settled => self,
            Fallback::Abort => self.committed(Event::AbortBeforeDocumentWrite),
            Fallback::Pending => self.committed(Event::LeavePending),
        }
    }
}

/// The publication of the documents and entries of one tick. The events wait in
/// an outbox until they are taken out and handed on.
pub struct DocumentPublicationTransaction {
    begun: Ghost<bool>,
    fallback: Fallback,
    outbox: Vec<DocumentPublicationEvent>,
    sent: Ghost<Seq<Event>>,
}

impl View for DocumentPublicationTransaction {
    type V = Publication;

    closed spec fn view(&self) -> Publication {
        Publication {
            begun: self.begun@,
            fallback: self.fallback,
            log: self.sent@ + events_view(self.outbox@),
        }
    }
}

impl DocumentPublicationTransaction {
    /// The events that have been taken out.
    pub closed spec fn sent(&self) -> Seq<Event> {
        self.sent@
    }

    /// Begins a publication where there is something to publish.
    pub fn begin(publication_relevant: bool) -> (r: DocumentPublicationTransaction)
        ensures
            r@ == Publication::start(publication_relevant),
            r.sent() == Seq::<Event>::empty(),
    {
        let mut outbox: Vec<DocumentPublicationEvent> = Vec::new();
        if publication_relevant {
            outbox.push(DocumentPublicationEvent::Begin);
        }
        let r = DocumentPublicationTransaction {
            begun: Ghost(publication_relevant),
            fallback: if publication_relevant {
                Fallback::Abort
            } else {
                Fallback::Settled
            },
            outbox,
            sent: Ghost(Seq::empty()),
        };
        assert(r@.log =~= Publication::start(publication_relevant).log);
        r
    }

    fn emit(&mut self, e: DocumentPublicationEvent)
        ensures
            final(self)@ == old(self)@.emitted(e@),
            final(self).sent() == old(self).sent(),
    {
        self.outbox.push(e);
        assert(self@.log =~= old(self)@.log.push(e@));
    }

    /// Notes that documents may change from here on. Only the first time it
    /// says so.
    pub fn document_mutation_started(&mut self)
        ensures
            final(self)@ == old(self)@.mutation_started(),
            final(self).sent() == old(self).sent(),
    {
        if self.fallback != Fallback::Abort {
            return;
        }
        self.emit(DocumentPublicationEvent::DocumentMutationStarted);
        self.fallback = Fallback::Pending;
    }

    /// Notes that the document at `path` is about to change.
    pub fn document_write_started(&mut self, path: String)
        ensures
            final(self)@ == old(self)@.write_started(path@),
            final(self).sent() == old(self).sent(),
    {
        self.document_mutation_started();
        self.emit(DocumentPublicationEvent::DocumentWriteStarted(path));
    }

    /// Notes that the document at `path` has been written.
    pub fn document_write_completed(&mut self, path: String)
        ensures
            final(self)@ == old(self)@.write_completed(path@),
            final(self).sent() == old(self).sent(),
    {
        self.emit(DocumentPublicationEvent::DocumentWriteCompleted(path));
    }

    /// Notes that the documents at `paths` are gone.
    pub fn document_paths_removed(&mut self, paths: Vec<String>)
        ensures
            final(self)@ == old(self)@.paths_removed(texts(paths@)),
            final(self).sent() == old(self).sent(),
    {
        assert(texts(paths@).len() == paths@.len());
        if paths.len() == 0 {
            return;
        }
        self.emit(DocumentPublicationEvent::DocumentPathsRemoved(paths));
    }

    /// Hands on the fallbacks of stale documents.
    pub fn snapshot_lazy_fallbacks(&mut self, paths: Vec<String>)
        ensures
            final(self)@ == old(self)@.emitted(Event::SnapshotLazyFallbacks(texts(paths@))),
            final(self).sent() == old(self).sent(),
    {
        self.emit(DocumentPublicationEvent::SnapshotLazyFallbacks(paths));
    }

    /// Commits the publication.
    pub fn commit(&mut self, event: DocumentPublicationEvent)
        ensures
            final(self)@ == old(self)@.committed(event@),
            final(self).sent() == old(self).sent(),
    {
        self.emit(event);
        self.fallback = Fallback::Settled;
    }

    /// Ends the publication where nothing has committed it.
    pub fn close(&mut self)
        ensures
            final(self)@ == old(self)@.closed(),
            final(self).sent() == old(self).sent(),
    {
        match self.fallback {
            Fallback::Settled => {},
            Fallback::Abort => {
                self.commit(DocumentPublicationEvent::AbortBeforeDocumentWrite);
            },
            Fallback::Pending => {
                self.commit(DocumentPublicationEvent::LeavePending);
            },
        }
    }

    /// Takes out the events that wait.
    pub fn take(&mut self) -> (r: Vec<DocumentPublicationEvent>)
        ensures
            final(self)@ == old(self)@,
            old(self)@.log == old(self).sent() + events_view(r@),
            final(self).sent() == old(self)@.log,
    {
        let mut out: Vec<DocumentPublicationEvent> = Vec::new();
        std::mem::swap(&mut out, &mut self.outbox);
        self.sent = Ghost(self.sent@ + events_view(out@));
        assert(events_view(self.outbox@) =~= Seq::empty());
        assert(self@.log =~= old(self)@.log);
        out
    }
}

proof fn lemma_endings_push(log: Seq<Event>, e: Event)
    ensures
        endings(log.push(e)) == endings(log) + if ends(e) {
            1nat
        } else {
            0nat
        },
{
    assert(log.push(e).drop_last() =~= log);
}

/// Every step keeps a publication coherent, as long as what is committed was
/// begun and was not committed before, and it is over once it is closed: one
/// that was begun has then ended exactly once.
pub proof fn lemma_publication(
    p: Publication,
    path: Seq<char>,
    paths: Seq<Seq<char>>,
    commit: Event,
)
    requires
        p.coherent(),
        ends(commit),
    ensures
        p.mutation_started().coherent(),
        p.write_started(path).coherent(),
        p.fallback != Fallback::Abort ==> p.write_completed(path).coherent(),
        p.fallback != Fallback::Abort ==> p.paths_removed(paths).coherent(),
        p.emitted(Event::SnapshotLazyFallbacks(paths)).coherent(),
        p.fallback != Fallback::Settled ==> p.committed(commit).coherent(),
        p.closed().coherent(),
        p.closed().fallback == Fallback::Settled,
        p.begun ==> endings(p.closed().log) == 1,
        !p.begun ==> endings(p.closed().log) == 0,
{
    let m = p.mutation_started();
    lemma_endings_push(p.log, Event::DocumentMutationStarted);
    lemma_endings_push(m.log, Event::DocumentWriteStarted(path));
    lemma_endings_push(p.log, Event::DocumentWriteCompleted(path));
    lemma_endings_push(p.log, Event::DocumentPathsRemoved(paths));
    lemma_endings_push(p.log, Event::SnapshotLazyFallbacks(paths));
    lemma_endings_push(p.log, commit);
    lemma_endings_push(p.log, Event::AbortBeforeDocumentWrite);
    lemma_endings_push(p.log, Event::LeavePending);
    let snap = p.emitted(Event::SnapshotLazyFallbacks(paths));
    assert(p.begun ==> snap.log[0] == p.log[0]);
    assert(p.begun ==> m.log[0] == p.log[0]);
}

} // verus!
