//! Writes that a request makes between two ticks. They share what is remembered
//! of the writes with the ticks, and are made while no tick runs.

use vstd::prelude::*;

use crate::pipeline::cache::{WriteCache, Written};
use crate::pipeline::dev::copy_bytes;
use crate::text::copy_str;

verus! {

/// What came of a request-time write.
#[derive(Debug, Clone, Copy, PartialEq, Eq, Structural)]
pub struct RequestWriteOutcome {
    /// Whether the bytes were written; they are not where the same bytes are
    /// there already.
    pub written: bool,
}

/// What came of a guarded request-time write.
#[derive(Debug, Clone, Copy, PartialEq, Eq, Structural)]
pub enum GuardedWriteOutcome {
    /// The guard let the write through.
    Written(RequestWriteOutcome),
    /// The guard held the write back: nothing was looked at, written or
    /// remembered.
    Skipped,
}

/// How a request-time write is made.
#[derive(Debug, Clone, Copy, PartialEq, Eq, Structural)]
pub struct RequestMode {
    /// Whether the claim on the document is checked again first.
    pub guarded: bool,
    /// Whether something is to be called once the write is made.
    pub finalized: bool,
}

/// What a request-time write waits for.
pub enum RequestWait {
    /// Whether the claim still holds.
    Revalidate,
    /// Whether the document may be written where it wants to be.
    Validate,
    /// The write.
    Write { dest: Seq<char> },
    /// The call after the write.
    AfterWrite { written: bool },
    /// Nothing: this came of it.
    Done(GuardedWriteOutcome),
    /// Nothing: it failed.
    Failed,
}

/// Where a request-time write stands.
pub struct Request {
    pub mode: RequestMode,
    pub dist_root: Seq<char>,
    pub output_path: Seq<char>,
    pub bytes: Seq<u8>,
    pub wait: RequestWait,
}

/// What came of what a request-time write waited for.
#[derive(Debug)]
pub enum RequestAnswer<E> {
    /// Whether the claim still holds.
    Revalidated(bool),
    /// The absolute path at which the document may be written.
    Validated(Result<String, E>),
    /// The write has been made.
    Written(Result<(), E>),
    /// The call after the write has been made.
    Finalized,
}

/// Why a request-time write failed.
#[derive(Debug)]
pub enum RequestError<E> {
    /// The document may not be written where it wants to be.
    Refused(E),
    /// The write failed.
    Failed(E),
}

/// What is to be done next.
#[derive(Debug, Clone, Copy, PartialEq, Eq, Structural)]
pub enum RequestAction {
    /// Check the claim.
    Revalidate,
    /// Find out whether the document may be written at its path below the dist
    /// root, and which absolute path that is.
    Validate,
    /// Write the bytes to the path.
    Write,
    /// Make the call that follows the write.
    AfterWrite,
    /// Nothing: this came of it.
    Done(GuardedWriteOutcome),
    /// Nothing: it failed.
    Failed,
}

/// The answer is one to what the write waits for.
pub open spec fn replies<E>(wait: RequestWait, answer: RequestAnswer<E>) -> bool {
    match wait {
        RequestWait::Revalidate => answer is Revalidated,
        RequestWait::Validate => answer is Validated,
        RequestWait::Write { .. } => answer is Written,
        RequestWait::AfterWrite { .. } => answer is Finalized,
        RequestWait::Done(_) => false,
        RequestWait::Failed => false,
    }
}

impl Request {
    /// Where a request-time write stands before anything is done.
    pub open spec fn opened(
        mode: RequestMode,
        dist_root: Seq<char>,
        output_path: Seq<char>,
        bytes: Seq<u8>,
    ) -> Request {
        Request {
            mode,
            dist_root,
            output_path,
            bytes,
            wait: if mode.guarded {
                RequestWait::Revalidate
            } else {
                RequestWait::Validate
            },
        }
    }

    pub open spec fn at(self, wait: RequestWait) -> Request {
        Request { wait, ..self }
    }

    /// The document holds the bytes now.
    pub open spec fn in_place(self, written: bool) -> Request {
        if self.mode.finalized {
            self.at(RequestWait::AfterWrite { written })
        } else {
            self.at(
                RequestWait::Done(GuardedWriteOutcome::Written(RequestWriteOutcome { written })),
            )
        }
    }

    /// Where the write stands after an answer.
    pub open spec fn after<E>(self, cache: Written, answer: RequestAnswer<E>) -> Request {
        match answer {
            RequestAnswer::Revalidated(holds) => if holds {
                self.at(RequestWait::Validate)
            } else {
                self.at(RequestWait::Done(GuardedWriteOutcome::Skipped))
            },
            RequestAnswer::Validated(Ok(dest)) => if cache.differs(dest@, self.bytes) {
                self.at(RequestWait::Write { dest: dest@ })
            } else {
                self.in_place(false)
            },
            RequestAnswer::Written(Ok(_)) => self.in_place(true),
            RequestAnswer::Finalized => self.at(
                RequestWait::Done(
                    GuardedWriteOutcome::Written(
                        RequestWriteOutcome { written: self.wait->AfterWrite_written },
                    ),
                ),
            ),
            _ => self.at(RequestWait::Failed),
        }
    }

    /// What is remembered of the writes after an answer: bytes, once they have
    /// been written, and never before.
    pub open spec fn known_after<E>(self, cache: Written, answer: RequestAnswer<E>) -> Written {
        match answer {
            RequestAnswer::Written(Ok(_)) => cache.with_bytes(self.wait->Write_dest, self.bytes),
            _ => cache,
        }
    }
}

#[derive(Debug)]
enum Stage {
    Revalidate,
    Validate,
    Write { dest: String },
    AfterWrite { written: bool },
    Done(GuardedWriteOutcome),
    Failed,
}

impl Stage {
    spec fn stands_for(&self) -> RequestWait {
        match self {
            Stage::Revalidate => RequestWait::Revalidate,
            Stage::Validate => RequestWait::Validate,
            Stage::Write { dest } => RequestWait::Write { dest: dest@ },
            Stage::AfterWrite { written } => RequestWait::AfterWrite { written: *written },
            Stage::Done(outcome) => RequestWait::Done(*outcome),
            Stage::Failed => RequestWait::Failed,
        }
    }
}

/// One request-time write.
#[derive(Debug)]
pub struct RequestWrite {
    mode: RequestMode,
    dist_root: String,
    output_path: String,
    bytes: Vec<u8>,
    stage: Stage,
}

impl View for RequestWrite {
    type V = Request;

    closed spec fn view(&self) -> Request {
        Request {
            mode: self.mode,
            dist_root: self.dist_root@,
            output_path: self.output_path@,
            bytes: self.bytes@,
            wait: self.stage.stands_for(),
        }
    }
}

impl RequestWrite {
    /// A write of `bytes` to `output_path` below `dist_root`.
    pub fn start(
        mode: RequestMode,
        dist_root: &str,
        output_path: &str,
        bytes: Vec<u8>,
    ) -> (r: RequestWrite)
        ensures
            r@ == Request::opened(mode, dist_root@, output_path@, bytes@),
    {
        RequestWrite {
            mode,
            dist_root: copy_str(dist_root),
            output_path: copy_str(output_path),
            bytes,
            stage: if mode.guarded {
                Stage::Revalidate
            } else {
                Stage::Validate
            },
        }
    }

    /// What is to be done next.
    pub fn action(&self) -> (r: RequestAction)
        ensures
            match self@.wait {
                RequestWait::Revalidate => r == RequestAction::Revalidate,
                RequestWait::Validate => r == RequestAction::Validate,
                RequestWait::Write { .. } => r == RequestAction::Write,
                RequestWait::AfterWrite { .. } => r == RequestAction::AfterWrite,
                RequestWait::Done(outcome) => r == RequestAction::Done(outcome),
                RequestWait::Failed => r == RequestAction::Failed,
            },
    {
        match &self.stage {
            Stage::Revalidate => RequestAction::Revalidate,
            Stage::Validate => RequestAction::Validate,
            Stage::Write { .. } => RequestAction::Write,
            Stage::AfterWrite { .. } => RequestAction::AfterWrite,
            Stage::Done(outcome) => RequestAction::Done(*outcome),
            Stage::Failed => RequestAction::Failed,
        }
    }

    /// The bytes that the write is about.
    pub fn bytes(&self) -> (r: &Vec<u8>)
        ensures
            r@ == self@.bytes,
    {
        &self.bytes
    }

    /// The directory below which to write.
    pub fn dist_root(&self) -> (r: &str)
        ensures
            r@ == self@.dist_root,
    {
        self.dist_root.as_str()
    }

    /// The path below that directory at which the document wants to be.
    pub fn output_path(&self) -> (r: &str)
        ensures
            r@ == self@.output_path,
    {
        self.output_path.as_str()
    }

    /// The path to write to, where the write is next.
    pub fn dest(&self) -> (r: Option<&str>)
        ensures
            match r {
                Some(d) => self@.wait == (RequestWait::Write { dest: d@ }),
                None => !(self@.wait is Write),
            },
    {
        match &self.stage {
            Stage::Write { dest } => Some(dest.as_str()),
            _ => None,
        }
    }

    fn put_in_place(&mut self, written: bool)
        ensures
            final(self)@ == old(self)@.in_place(written),
    {
        if self.mode.finalized {
            self.stage = Stage::AfterWrite { written };
        } else {
            self.stage = Stage::Done(GuardedWriteOutcome::Written(RequestWriteOutcome { written }));
        }
    }

    /// Takes the answer to what the write waited for.
    pub fn resume<E>(&mut self, cache: &mut WriteCache, answer: RequestAnswer<E>) -> (r: Result<
        (),
        RequestError<E>,
    >)
        requires
            replies(old(self)@.wait, answer),
        ensures
            final(self)@ == old(self)@.after(old(cache)@, answer),
            final(cache)@ == old(self)@.known_after(old(cache)@, answer),
            match r {
                Ok(_) => !(final(self)@.wait is Failed),
                Err(RequestError::Refused(e)) => answer == RequestAnswer::Validated(Err(e)),
                Err(RequestError::Failed(e)) => answer == RequestAnswer::Written(Err(e)),
            },
    {
        match answer {
            RequestAnswer::Revalidated(holds) => {
                self.stage = if holds {
                    Stage::Validate
                } else {
                    Stage::Done(GuardedWriteOutcome::Skipped)
                };
            },
            RequestAnswer::Validated(Ok(dest)) => {
                if cache.needs_write(dest.as_str(), &self.bytes) {
                    self.stage = Stage::Write { dest };
                } else {
                    self.put_in_place(false);
                }
            },
            RequestAnswer::Validated(Err(e)) => {
                self.stage = Stage::Failed;
                return Err(RequestError::Refused(e));
            },
            RequestAnswer::Written(Ok(_)) => {
                if let Stage::Write { dest } = &self.stage {
                    cache.commit_bytes(dest.as_str(), copy_bytes(&self.bytes));
                }
                self.put_in_place(true);
            },
            RequestAnswer::Written(Err(e)) => {
                self.stage = Stage::Failed;
                return Err(RequestError::Failed(e));
            },
            RequestAnswer::Finalized => {
                if let Stage::AfterWrite { written } = self.stage {
                    self.stage = Stage::Done(
                        GuardedWriteOutcome::Written(RequestWriteOutcome { written }),
                    );
                }
            },
        }
        Ok(())
    }
}

/// A guard that does not hold keeps the write back wholesale: no path is looked
/// at, nothing is written, and what is remembered stays. Where nothing guards
/// the write, it is never kept back.
pub proof fn lemma_guard_keeps_back<E>(
    mode: RequestMode,
    dist_root: Seq<char>,
    output_path: Seq<char>,
    bytes: Seq<u8>,
    cache: Written,
    holds: bool,
)
    ensures
        ({
            let first = Request::opened(mode, dist_root, output_path, bytes);
            let answer = RequestAnswer::<E>::Revalidated(holds);
            &&& mode.guarded <==> first.wait is Revalidate
            &&& mode.guarded && !holds ==> first.after(cache, answer).wait == RequestWait::Done(
                GuardedWriteOutcome::Skipped,
            ) && first.known_after(cache, answer) == cache
            &&& mode.guarded && holds ==> first.after(cache, answer).wait is Validate
            &&& !mode.guarded ==> first.wait is Validate
        }),
{
}

/// However a request put bytes in place, the same bytes are not written there
/// again, by another request or by a tick; and nothing else that is remembered
/// has changed: not where a page is, nor what any other path holds.
pub proof fn lemma_request_deduplicates(
    request: Request,
    cache: Written,
    dest: String,
    other: Seq<char>,
    more: Seq<u8>,
)
    requires
        request.wait is Validate,
    ensures
        ({
            let allowed = RequestAnswer::<()>::Validated(Ok(dest));
            let second = request.after(cache, allowed);
            let made = RequestAnswer::<()>::Written(Ok(()));
            let known = if second.wait is Write {
                second.known_after(cache, made)
            } else {
                request.known_after(cache, allowed)
            };
            &&& second.wait is Write <==> cache.differs(dest@, request.bytes)
            &&& !known.differs(dest@, request.bytes)
            &&& known.outputs == cache.outputs
            &&& crate::path::parts(other) != crate::path::parts(dest@) ==> known.differs(
                other,
                more,
            ) == cache.differs(other, more)
        }),
{
}

/// A write that failed is not remembered, so that the same bytes are written
/// the next time.
pub proof fn lemma_failed_write_is_forgotten<E>(request: Request, cache: Written, error: E)
    requires
        request.wait is Write,
        cache.differs(request.wait->Write_dest, request.bytes),
    ensures
        ({
            let answer = RequestAnswer::<E>::Written(Err(error));
            &&& request.after(cache, answer).wait is Failed
            &&& request.known_after(cache, answer).differs(
                request.wait->Write_dest,
                request.bytes,
            )
        }),
{
}

} // verus!
