//! What the two asset pipelines share: the pages they write, the context they
//! run in and the outcome they report.

use vstd::prelude::*;

use crate::page::PageId;
use crate::path::RelDistPath;
use crate::plan::texts;

pub mod asset;
pub mod build_laws;
pub mod cache;
pub mod dev;
pub mod dev_laws;
pub mod dev_pipeline;
pub mod disk_laws;
pub mod event_laws;
pub mod hash;
pub mod name_laws;
pub mod orchestrator;
pub mod order_laws;
pub mod prod;
pub mod prod_laws;
pub mod publication;
pub mod removal_laws;
pub mod request;
pub mod rewrite;
pub mod rewrite_laws;
pub mod shipping_laws;
pub mod tick_laws;
pub mod timing;
pub mod walk;
pub mod write_laws;

verus! {

/// Which pipeline a caller wants.
#[derive(Debug, Clone, Copy, PartialEq, Eq, Structural)]
pub enum BuildMode {
    /// Incremental, with stable file names.
    Dev,
    /// One shot, with content-hashed assets.
    Production,
}

impl BuildMode {
    /// Whether this is the production mode.
    pub fn is_prod(self) -> (r: bool)
        ensures
            r == (self == BuildMode::Production),
    {
        matches!(self, BuildMode::Production)
    }
}

/// The kinds of assets that the production pipeline ships.
#[derive(Debug, Clone, Copy, PartialEq, Eq, Structural)]
pub enum AssetKind {
    /// The global stylesheet.
    Css,
    /// The islands bundle.
    Islands,
    /// A client script.
    ClientScript,
}

/// A rendered page.
#[derive(Debug)]
pub struct RenderedPage {
    /// The page.
    pub page: PageId,
    /// Where it goes below the dist root.
    pub output_path: RelDistPath,
    /// Its text.
    pub html: String,
    /// Its content type, where it has one of its own.
    pub content_type: Option<String>,
}

/// What the islands bundler reports.
#[derive(Debug)]
pub struct IslandsBundleInfo {
    /// Whether the bundle differs from the one before.
    pub changed: bool,
    /// The bundle's public URL.
    pub bundle_url: String,
    /// The names of the components in it.
    pub components: Vec<String>,
}

/// What reloading the renderer did.
#[derive(Debug)]
pub enum RefreshOutcome {
    /// Nothing observable had changed; renderer and routes are as before.
    Skipped,
    /// The renderer and the routes are new.
    Refreshed {
        /// The absolute output paths that no route has any more.
        vanished: Vec<String>,
        /// The pages whose routes changed.
        changed_sources: Vec<PageId>,
    },
}

/// What a pipeline run did.
#[derive(Debug)]
pub struct BuildOutcome {
    /// How many pages were rendered.
    pub pages_rendered: usize,
    /// Whether the CSS pipeline was asked for.
    pub css_rerun: bool,
    /// Whether it has a new stylesheet.
    pub css_changed: bool,
    /// Whether the islands bundler was asked for.
    pub islands_rerun: bool,
    /// Whether it has a new bundle.
    pub islands_changed: bool,
    /// What the islands bundler reported.
    pub islands_bundle: Option<IslandsBundleInfo>,
    /// Whether the client-scripts bundler was asked for.
    pub client_scripts_rerun: bool,
    /// Whether it wrote anything.
    pub client_scripts_changed: bool,
    /// The pages whose output was written.
    pub pages_written: Vec<PageId>,
    /// The absolute output paths that were deleted.
    pub pages_pruned: Vec<String>,
    /// The URLs of the hashed assets.
    pub hashed_asset_urls: Vec<(AssetKind, String)>,
    /// The output paths that were marked stale.
    pub pages_stale: Vec<String>,
    /// Whether server-rendered routes were published.
    pub ssr_routes_published: bool,
    /// Whether dynamic injected routes were marked stale.
    pub dynamic_injected_restaled: bool,
}

/// The kinds and URLs of hashed assets.
pub open spec fn asset_urls(list: Seq<(AssetKind, String)>) -> Seq<(AssetKind, Seq<char>)> {
    list.map_values(|e: (AssetKind, String)| (e.0, e.1@))
}

/// What a [`BuildOutcome`] says.
pub struct Outcome {
    pub pages_rendered: nat,
    pub css_rerun: bool,
    pub css_changed: bool,
    pub islands_rerun: bool,
    pub islands_changed: bool,
    pub islands_bundle: Option<IslandsBundleInfo>,
    pub client_scripts_rerun: bool,
    pub client_scripts_changed: bool,
    pub pages_written: Seq<PageId>,
    pub pages_pruned: Seq<Seq<char>>,
    pub hashed_asset_urls: Seq<(AssetKind, Seq<char>)>,
    pub pages_stale: Seq<Seq<char>>,
    pub ssr_routes_published: bool,
    pub dynamic_injected_restaled: bool,
}

impl Outcome {
    /// Nothing was done.
    pub open spec fn nothing() -> Outcome {
        Outcome {
            pages_rendered: 0,
            css_rerun: false,
            css_changed: false,
            islands_rerun: false,
            islands_changed: false,
            islands_bundle: None,
            client_scripts_rerun: false,
            client_scripts_changed: false,
            pages_written: Seq::empty(),
            pages_pruned: Seq::empty(),
            hashed_asset_urls: Seq::empty(),
            pages_stale: Seq::empty(),
            ssr_routes_published: false,
            dynamic_injected_restaled: false,
        }
    }
}

impl View for BuildOutcome {
    type V = Outcome;

    open spec fn view(&self) -> Outcome {
        Outcome {
            pages_rendered: self.pages_rendered as nat,
            css_rerun: self.css_rerun,
            css_changed: self.css_changed,
            islands_rerun: self.islands_rerun,
            islands_changed: self.islands_changed,
            islands_bundle: self.islands_bundle,
            client_scripts_rerun: self.client_scripts_rerun,
            client_scripts_changed: self.client_scripts_changed,
            pages_written: self.pages_written@,
            pages_pruned: texts(self.pages_pruned@),
            hashed_asset_urls: asset_urls(self.hashed_asset_urls@),
            pages_stale: texts(self.pages_stale@),
            ssr_routes_published: self.ssr_routes_published,
            dynamic_injected_restaled: self.dynamic_injected_restaled,
        }
    }
}

impl Default for BuildOutcome {
    fn default() -> (r: BuildOutcome)
        ensures
            r@ == Outcome::nothing(),
    {
        let r = BuildOutcome {
            pages_rendered: 0,
            css_rerun: false,
            css_changed: false,
            islands_rerun: false,
            islands_changed: false,
            islands_bundle: None,
            client_scripts_rerun: false,
            client_scripts_changed: false,
            pages_written: Vec::new(),
            pages_pruned: Vec::new(),
            hashed_asset_urls: Vec::new(),
            pages_stale: Vec::new(),
            ssr_routes_published: false,
            dynamic_injected_restaled: false,
        };
        assert(r@.pages_pruned =~= Seq::empty() && r@.pages_stale =~= Seq::empty());
        assert(r@.hashed_asset_urls =~= Seq::empty());
        r
    }
}

impl BuildOutcome {
    /// Notes that the page was written.
    pub fn add_written(&mut self, page: PageId)
        ensures
            final(self)@ == (Outcome {
                pages_written: old(self)@.pages_written.push(page),
                ..old(self)@
            }),
    {
        self.pages_written.push(page);
    }

    /// Notes that the output was deleted.
    pub fn add_pruned(&mut self, path: String)
        ensures
            final(self)@ == (Outcome {
                pages_pruned: old(self)@.pages_pruned.push(path@),
                ..old(self)@
            }),
    {
        self.pages_pruned.push(path);
        assert(texts(self.pages_pruned@) =~= old(self)@.pages_pruned.push(path@));
    }

    /// Notes how many pages were rendered.
    pub fn set_rendered(&mut self, count: usize)
        ensures
            final(self)@ == (Outcome { pages_rendered: count as nat, ..old(self)@ }),
    {
        self.pages_rendered = count;
    }

    /// Notes whether there is a new stylesheet.
    pub fn set_css_changed(&mut self, changed: bool)
        ensures
            final(self)@ == (Outcome { css_changed: changed, ..old(self)@ }),
    {
        self.css_changed = changed;
    }

    /// Notes whether there is a new islands bundle.
    pub fn set_islands_changed(&mut self, changed: bool)
        ensures
            final(self)@ == (Outcome { islands_changed: changed, ..old(self)@ }),
    {
        self.islands_changed = changed;
    }

    /// Notes the URL under which an asset was shipped.
    pub fn add_asset_url(&mut self, kind: AssetKind, url: String)
        ensures
            final(self)@ == (Outcome {
                hashed_asset_urls: old(self)@.hashed_asset_urls.push((kind, url@)),
                ..old(self)@
            }),
    {
        self.hashed_asset_urls.push((kind, url));
        assert(asset_urls(self.hashed_asset_urls@) =~= old(self)@.hashed_asset_urls.push(
            (kind, url@),
        ));
    }

    /// Notes whether the client-scripts bundler wrote anything.
    pub fn set_client_scripts_changed(&mut self, changed: bool)
        ensures
            final(self)@ == (Outcome { client_scripts_changed: changed, ..old(self)@ }),
    {
        self.client_scripts_changed = changed;
    }

    /// Notes the output paths that were marked stale.
    pub fn set_stale(&mut self, paths: Vec<String>)
        ensures
            final(self)@ == (Outcome { pages_stale: texts(paths@), ..old(self)@ }),
    {
        self.pages_stale = paths;
    }

    /// Notes whether server-rendered routes were published.
    pub fn set_ssr_published(&mut self, published: bool)
        ensures
            final(self)@ == (Outcome { ssr_routes_published: published, ..old(self)@ }),
    {
        self.ssr_routes_published = published;
    }

    /// Notes whether dynamic injected routes were marked stale.
    pub fn set_dynamic_restaled(&mut self, restaled: bool)
        ensures
            final(self)@ == (Outcome { dynamic_injected_restaled: restaled, ..old(self)@ }),
    {
        self.dynamic_injected_restaled = restaled;
    }

    /// Notes what the islands bundler reports.
    pub fn set_islands(&mut self, info: IslandsBundleInfo)
        ensures
            final(self)@ == (Outcome {
                islands_changed: info.changed,
                islands_bundle: Some(info),
                ..old(self)@
            }),
    {
        self.islands_changed = info.changed;
        self.islands_bundle = Some(info);
    }
}

/// Where a pipeline writes and the callbacks that it is given. The callbacks are
/// of whatever types the caller has.
#[derive(Debug)]
pub struct BuildContext<Render, Css, Islands, Scripts, Reload> {
    /// The absolute path of the dist root.
    pub dist_root: String,
    /// Renders pages.
    pub render_pages: Render,
    /// Runs the CSS pipeline.
    pub run_css: Option<Css>,
    /// Runs the islands bundler.
    pub run_islands: Option<Islands>,
    /// Runs the client-scripts bundler.
    pub run_client_scripts: Option<Scripts>,
    /// Reloads the renderer.
    pub reload_renderer: Option<Reload>,
}

/// The context of a dev build.
#[derive(Debug)]
pub struct DevBuildContext<Render, Css, Islands, Scripts, Reload> {
    /// The absolute path of the dist root.
    pub dist_root: String,
    /// Renders pages.
    pub render_pages: Render,
    /// Runs the CSS pipeline.
    pub run_css: Option<Css>,
    /// Runs the islands bundler.
    pub run_islands: Option<Islands>,
    /// Runs the client-scripts bundler.
    pub run_client_scripts: Option<Scripts>,
    /// Reloads the renderer.
    pub reload_renderer: Option<Reload>,
}

impl<Render, Css, Islands, Scripts, Reload> DevBuildContext<Render, Css, Islands, Scripts, Reload> {
    /// The context with everything in it.
    pub fn into_build_context(self) -> (r: BuildContext<Render, Css, Islands, Scripts, Reload>)
        ensures
            r.dist_root == self.dist_root,
            r.render_pages == self.render_pages,
            r.run_css == self.run_css,
            r.run_islands == self.run_islands,
            r.run_client_scripts == self.run_client_scripts,
            r.reload_renderer == self.reload_renderer,
    {
        BuildContext {
            dist_root: self.dist_root,
            render_pages: self.render_pages,
            run_css: self.run_css,
            run_islands: self.run_islands,
            run_client_scripts: self.run_client_scripts,
            reload_renderer: self.reload_renderer,
        }
    }
}

/// The context of a production build. It has none of the dev callbacks.
#[derive(Debug)]
pub struct ProdBuildContext<Render> {
    /// The absolute path of the dist root.
    pub dist_root: String,
    /// Renders pages.
    pub render_pages: Render,
}

impl<Render> ProdBuildContext<Render> {
    /// The context without any dev callback.
    pub fn into_build_context<Css, Islands, Scripts, Reload>(self) -> (r: BuildContext<
        Render,
        Css,
        Islands,
        Scripts,
        Reload,
    >)
        ensures
            r.dist_root == self.dist_root,
            r.render_pages == self.render_pages,
            r.run_css is None,
            r.run_islands is None,
            r.run_client_scripts is None,
            r.reload_renderer is None,
    {
        BuildContext {
            dist_root: self.dist_root,
            render_pages: self.render_pages,
            run_css: None,
            run_islands: None,
            run_client_scripts: None,
            reload_renderer: None,
        }
    }
}

} // verus!
