//! The dev pipeline as callers hold it: what it remembers of its writes, with
//! the probes and the hook that it was given.

use vstd::prelude::*;

use crate::page::{ascending, page_key_set, page_keys};
use crate::pipeline::cache::{WriteCache, Written};
use crate::pipeline::dev::{
    answers, error_of, opened, remembered, stepped, DevAnswer, DevCapabilities, DevError, DevRun,
};
use crate::pipeline::publication::Event;
use crate::pipeline::request::{
    replies, Request, RequestAnswer, RequestError, RequestMode, RequestWrite,
};
use crate::pipeline::BuildContext;
use crate::plan::{RebuildPlan, Selection};

verus! {

/// The incremental pipeline. Probes and hook are of whatever types the caller
/// has.
#[derive(Debug)]
pub struct DevAssetPipeline<Stale, Ssr, Dynamic, Fallbacks, Hook> {
    /// What is remembered of the writes.
    pub cache: WriteCache,
    /// Drains the routes that were marked stale.
    pub stale_probe: Option<Stale>,
    /// Drains whether server-rendered routes were published.
    pub ssr_publish_probe: Option<Ssr>,
    /// Drains whether dynamic injected routes were marked stale.
    pub dynamic_injected_probe: Option<Dynamic>,
    /// Collects the stale documents that have a fallback on disk.
    pub lazy_fallback_probe: Option<Fallbacks>,
    /// Is told of every publication event.
    pub document_publication_hook: Option<Hook>,
}

impl<Stale, Ssr, Dynamic, Fallbacks, Hook> DevAssetPipeline<Stale, Ssr, Dynamic, Fallbacks, Hook> {
    /// What is remembered of the writes.
    pub open spec fn written(&self) -> Written {
        self.cache@
    }

    /// The pipeline is as `other`, but for what it remembers of the writes.
    pub open spec fn equipped_as(&self, other: &Self) -> bool {
        &&& self.stale_probe == other.stale_probe
        &&& self.ssr_publish_probe == other.ssr_publish_probe
        &&& self.dynamic_injected_probe == other.dynamic_injected_probe
        &&& self.lazy_fallback_probe == other.lazy_fallback_probe
        &&& self.document_publication_hook == other.document_publication_hook
    }

    /// What can be called in a tick: what the pipeline and the context hold.
    /// Fallbacks are collected only where a hook is there to be told of them.
    pub open spec fn caps<Render, Css, Islands, Scripts, Reload>(
        &self,
        ctx: BuildContext<Render, Css, Islands, Scripts, Reload>,
    ) -> DevCapabilities {
        DevCapabilities {
            client_scripts: ctx.run_client_scripts is Some,
            islands: ctx.run_islands is Some,
            reload: ctx.reload_renderer is Some,
            css: ctx.run_css is Some,
            fallbacks: self.lazy_fallback_probe is Some && self.document_publication_hook is Some,
            stale: self.stale_probe is Some,
            ssr: self.ssr_publish_probe is Some,
            dynamic: self.dynamic_injected_probe is Some,
        }
    }

    /// A pipeline that remembers nothing and has neither probes nor a hook.
    pub fn new() -> (r: Self)
        ensures
            r.written() == Written::nothing(),
            r.stale_probe is None,
            r.ssr_publish_probe is None,
            r.dynamic_injected_probe is None,
            r.lazy_fallback_probe is None,
            r.document_publication_hook is None,
    {
        DevAssetPipeline {
            cache: WriteCache::new(),
            stale_probe: None,
            ssr_publish_probe: None,
            dynamic_injected_probe: None,
            lazy_fallback_probe: None,
            document_publication_hook: None,
        }
    }

    /// A pipeline that remembers nothing and has the probe for stale routes.
    pub fn with_stale_probe(probe: Stale) -> (r: Self)
        ensures
            r.written() == Written::nothing(),
            r.stale_probe == Some(probe),
            r.ssr_publish_probe is None,
            r.dynamic_injected_probe is None,
            r.lazy_fallback_probe is None,
            r.document_publication_hook is None,
    {
        let mut r = Self::new();
        r.stale_probe = Some(probe);
        r
    }

    /// With the probe for published server-rendered routes.
    pub fn with_ssr_publish_probe(self, probe: Ssr) -> (r: Self)
        ensures
            r == (DevAssetPipeline { ssr_publish_probe: Some(probe), ..self }),
    {
        let mut r = self;
        r.ssr_publish_probe = Some(probe);
        r
    }

    /// With the probe for dynamic injected routes.
    pub fn with_dynamic_injected_probe(self, probe: Dynamic) -> (r: Self)
        ensures
            r == (DevAssetPipeline { dynamic_injected_probe: Some(probe), ..self }),
    {
        let mut r = self;
        r.dynamic_injected_probe = Some(probe);
        r
    }

    /// With the snapshot of stale documents.
    pub fn with_lazy_fallback_probe(self, probe: Fallbacks) -> (r: Self)
        ensures
            r == (DevAssetPipeline { lazy_fallback_probe: Some(probe), ..self }),
    {
        let mut r = self;
        r.lazy_fallback_probe = Some(probe);
        r
    }

    /// With the hook for publication events.
    pub fn with_document_publication_hook(self, hook: Hook) -> (r: Self)
        ensures
            r == (DevAssetPipeline { document_publication_hook: Some(hook), ..self }),
    {
        let mut r = self;
        r.document_publication_hook = Some(hook);
        r
    }

    /// Forgets what was written, so that everything is written again.
    pub fn reset_cache(&mut self)
        ensures
            final(self).written() == Written::nothing(),
            final(self).equipped_as(old(self)),
    {
        self.cache.clear();
    }

    /// Begins a tick that carries out the plan. `false` where the plan selects
    /// all pages without naming them: that is refused, and the tick is over.
    pub fn apply<Render, Css, Islands, Scripts, Reload>(
        &self,
        plan: &RebuildPlan,
        ctx: &BuildContext<Render, Css, Islands, Scripts, Reload>,
    ) -> (r: (DevRun, bool))
        ensures
            r.0.sound(),
            r.1 == (plan@.pages != Selection::All),
            ({
                let run = opened(plan@, r.0@.setup.pages, self.caps(*ctx), ctx.dist_root@);
                r.0@ == if r.1 {
                    run.begin()
                } else {
                    run.failed()
                }
            }),
            r.0@.setup.pages == plan.pages.listed(),
            match plan@.pages {
                Selection::All => r.0@.setup.pages.len() == 0,
                Selection::Specific(set) => page_key_set(r.0@.setup.pages) == set && ascending(
                    page_keys(r.0@.setup.pages),
                ),
            },
            r.0.sent() == Seq::<Event>::empty(),
    {
        let caps = DevCapabilities {
            client_scripts: ctx.run_client_scripts.is_some(),
            islands: ctx.run_islands.is_some(),
            reload: ctx.reload_renderer.is_some(),
            css: ctx.run_css.is_some(),
            fallbacks: self.lazy_fallback_probe.is_some()
                && self.document_publication_hook.is_some(),
            stale: self.stale_probe.is_some(),
            ssr: self.ssr_publish_probe.is_some(),
            dynamic: self.dynamic_injected_probe.is_some(),
        };
        DevRun::start(plan, caps, ctx.dist_root.as_str())
    }

    /// Takes the answer to what the tick waited for.
    pub fn resume_tick<E>(&mut self, run: &mut DevRun, answer: DevAnswer<E>) -> (r: Result<
        (),
        DevError<E>,
    >)
        requires
            old(run).sound(),
            answers(old(run)@.wait, answer),
        ensures
            final(run).sound(),
            final(run).sent() == old(run).sent(),
            final(run)@ == stepped(old(run)@, old(self).written(), answer),
            final(self).equipped_as(old(self)),
            final(self).written() == (if error_of(answer) is Some {
                old(self).written()
            } else {
                remembered(old(run)@, old(self).written(), answer)
            }),
            match r {
                Ok(_) => error_of(answer) is None,
                Err(DevError::Outside(e)) => !(answer is Validated) && error_of(answer) == Some(e),
                Err(DevError::RefusedPage(page, e)) => answer is Validated && error_of(answer)
                    == Some(e) && page == old(run)@.queue[0].page,
            },
    {
        run.resume(&mut self.cache, answer)
    }

    /// Begins a request-time write.
    pub fn request_write(
        &self,
        dist_root: &str,
        output_path: &str,
        bytes: Vec<u8>,
    ) -> (r: RequestWrite)
        ensures
            r@ == Request::opened(
                (RequestMode { guarded: false, finalized: false }),
                dist_root@,
                output_path@,
                bytes@,
            ),
    {
        RequestWrite::start(
            RequestMode { guarded: false, finalized: false },
            dist_root,
            output_path,
            bytes,
        )
    }

    /// Begins a request-time write that is made only if the claim on the document
    /// still holds.
    pub fn request_write_guarded(
        &self,
        dist_root: &str,
        output_path: &str,
        bytes: Vec<u8>,
    ) -> (r: RequestWrite)
        ensures
            r@ == Request::opened(
                (RequestMode { guarded: true, finalized: false }),
                dist_root@,
                output_path@,
                bytes@,
            ),
    {
        RequestWrite::start(
            RequestMode { guarded: true, finalized: false },
            dist_root,
            output_path,
            bytes,
        )
    }

    /// Begins a request-time write that is made only if the claim on the document
    /// still holds, with a call once it is made.
    pub fn request_write_guarded_then(
        &self,
        dist_root: &str,
        output_path: &str,
        bytes: Vec<u8>,
    ) -> (r: RequestWrite)
        ensures
            r@ == Request::opened(
                (RequestMode { guarded: true, finalized: true }),
                dist_root@,
                output_path@,
                bytes@,
            ),
    {
        RequestWrite::start(
            RequestMode { guarded: true, finalized: true },
            dist_root,
            output_path,
            bytes,
        )
    }

    /// Takes the answer to what the request-time write waited for.
    pub fn resume_request<E>(
        &mut self,
        write: &mut RequestWrite,
        answer: RequestAnswer<E>,
    ) -> (r: Result<(), RequestError<E>>)
        requires
            replies(old(write)@.wait, answer),
        ensures
            final(write)@ == old(write)@.after(old(self).written(), answer),
            final(self).written() == old(write)@.known_after(old(self).written(), answer),
            final(self).equipped_as(old(self)),
            match r {
                Ok(_) => !(final(write)@.wait is Failed),
                Err(RequestError::Refused(e)) => answer == RequestAnswer::Validated(Err(e)),
                Err(RequestError::Failed(e)) => answer == RequestAnswer::Written(Err(e)),
            },
    {
        write.resume(&mut self.cache, answer)
    }
}

} // verus!
