//! A production build over pages that are on disk already, and assets whose
//! bytes are there.

use vstd::prelude::*;

use crate::page::{ascending, list_with_all, page_key_set, page_keys, PageId, PageSet};
use crate::path::{parts, RelDistPath};
use crate::pipeline::asset::{companions_view, copy_companions, Asset, CompanionFile, EmittedAsset};
use crate::pipeline::dev::copy_bytes;
use crate::pipeline::prod::{
    build_opened, AssetEmitter, ProdRun, ProductionAssetPipeline, ProductionEmitters,
};
use crate::pipeline::RenderedPage;
use crate::plan::{PageSelection, Plan, RebuildPlan, Selection};
use crate::text::copy_str;

verus! {

/// An asset whose bytes are there.
#[derive(Debug)]
pub struct AssetEmitterPayload {
    /// Its content.
    pub bytes: Vec<u8>,
    /// Where it goes below the dist root; its hash is put before the extension.
    pub relative_path: String,
    /// The URL by which pages name it.
    pub stable_url: String,
    /// The files that are shipped beside it.
    pub companions: Vec<CompanionFile>,
}

impl AssetEmitterPayload {
    /// The asset.
    pub open spec fn asset(&self) -> Asset {
        Asset {
            bytes: self.bytes@,
            relative_path: self.relative_path@,
            stable_url: Some(self.stable_url@),
            companions: companions_view(self.companions@),
        }
    }
}

/// The assets of a build. What is missing is not shipped.
#[derive(Debug)]
pub struct ProdAssetEmitterInputs {
    /// The stylesheet.
    pub css: Option<AssetEmitterPayload>,
    /// The islands bundle.
    pub islands: Option<AssetEmitterPayload>,
    /// The client scripts.
    pub client_scripts: Vec<AssetEmitterPayload>,
}

impl Default for ProdAssetEmitterInputs {
    fn default() -> (r: ProdAssetEmitterInputs)
        ensures
            r.css is None,
            r.islands is None,
            r.client_scripts@.len() == 0,
    {
        ProdAssetEmitterInputs { css: None, islands: None, client_scripts: Vec::new() }
    }
}

/// A page that the renderer has written.
#[derive(Debug)]
pub struct ProdRenderedFile {
    /// The page.
    pub page: PageId,
    /// Where it is below the dist root.
    pub output_path: RelDistPath,
}

/// An emitter that always has its asset.
#[derive(Debug)]
pub struct PayloadEmitter {
    payload: AssetEmitterPayload,
}

impl PayloadEmitter {
    /// The asset that it emits.
    pub closed spec fn asset(&self) -> Asset {
        self.payload.asset()
    }
}

impl AssetEmitter for PayloadEmitter {
    type Error = ();

    /// Hands the asset out. There always is one.
    fn emit(&self) -> (r: Result<Option<EmittedAsset>, ()>)
        ensures
            r matches Ok(Some(asset)) && asset@ == self.asset(),
    {
        let asset = EmittedAsset {
            bytes: copy_bytes(&self.payload.bytes),
            relative_path: copy_str(self.payload.relative_path.as_str()),
            stable_url: Some(copy_str(self.payload.stable_url.as_str())),
            companions: copy_companions(&self.payload.companions),
        };
        Ok(Some(asset))
    }
}

/// An emitter of the payload.
pub fn payload_to_emitter(payload: AssetEmitterPayload) -> (r: PayloadEmitter)
    ensures
        r.asset() == payload.asset(),
{
    PayloadEmitter { payload }
}

/// The asset of an optional payload.
pub open spec fn opt_asset(payload: Option<AssetEmitterPayload>) -> Option<Asset> {
    match payload {
        Some(p) => Some(p.asset()),
        None => None,
    }
}

/// The asset of an optional emitter.
pub open spec fn opt_emitted(emitter: Option<PayloadEmitter>) -> Option<Asset> {
    match emitter {
        Some(e) => Some(e.asset()),
        None => None,
    }
}

/// The emitters have the assets of the inputs, each in its place.
pub open spec fn emits(
    emitters: ProductionEmitters<PayloadEmitter>,
    inputs: ProdAssetEmitterInputs,
) -> bool {
    &&& opt_emitted(emitters.css) == opt_asset(inputs.css)
    &&& opt_emitted(emitters.islands) == opt_asset(inputs.islands)
    &&& emitters.client_scripts@.map_values(|e: PayloadEmitter| e.asset())
        == inputs.client_scripts@.map_values(|p: AssetEmitterPayload| p.asset())
}

/// The emitters of the inputs.
pub fn build_emitters(inputs: ProdAssetEmitterInputs) -> (r: ProductionEmitters<PayloadEmitter>)
    ensures
        emits(r, inputs),
{
    let css = match inputs.css {
        Some(payload) => Some(payload_to_emitter(payload)),
        None => None,
    };
    let islands = match inputs.islands {
        Some(payload) => Some(payload_to_emitter(payload)),
        None => None,
    };
    let ghost all = inputs.client_scripts@;
    let ghost assets = all.map_values(|p: AssetEmitterPayload| p.asset());
    let mut left = inputs.client_scripts;
    let mut scripts: Vec<PayloadEmitter> = Vec::new();
    while left.len() > 0
        invariant
            scripts@.len() + left@.len() == all.len(),
            left@ == all.skip(scripts@.len() as int),
            assets == all.map_values(|p: AssetEmitterPayload| p.asset()),
            forall|k: int| 0 <= k < scripts@.len() ==> (#[trigger] scripts@[k]).asset() == assets[k],
        decreases left@.len(),
    {
        let ghost done = scripts@.len() as int;
        let payload = left.remove(0);
        assert(payload == all[done]);
        assert(left@ =~= all.skip(done + 1));
        scripts.push(payload_to_emitter(payload));
    }
    assert(scripts@.map_values(|e: PayloadEmitter| e.asset()) =~= assets);
    ProductionEmitters { css, islands, client_scripts: scripts }
}

/// The page of an output that has none of its own.
pub fn synthesize_page_id_from_output(output_path: &RelDistPath) -> (r: PageId)
    ensures
        r.text() == output_path@,
        r.key() == parts(output_path@),
{
    PageId::new(copy_str(output_path.as_path()))
}

/// Why a production build was not begun: some pages are the same.
#[derive(Debug, Clone, Copy, PartialEq, Eq, Structural)]
pub struct DuplicatePages {
    /// How many pages there are.
    pub pages: usize,
    /// How many of them are different.
    pub unique: usize,
}

/// The pages of a list of files.
pub open spec fn file_pages(list: Seq<ProdRenderedFile>) -> Seq<PageId> {
    list.map_values(|f: ProdRenderedFile| f.page)
}

/// The plan of a production build: everything, with nothing to reload.
pub open spec fn prod_plan(pages: Seq<PageId>) -> Plan {
    Plan {
        pages: Selection::Specific(page_key_set(pages)),
        rerun_css: true,
        rerun_islands: true,
        rerun_client_scripts: true,
        renderer_fresh: true,
        ..Plan::empty()
    }
}

/// A production build that has begun.
#[derive(Debug)]
pub struct ProdBuild {
    /// The pipeline, with the emitters in it.
    pub pipeline: ProductionAssetPipeline<PayloadEmitter>,
    /// The build.
    pub run: ProdRun,
}

fn pages_of_files(files: &Vec<ProdRenderedFile>) -> (r: Vec<PageId>)
    ensures
        r@ == file_pages(files@),
{
    let mut out: Vec<PageId> = Vec::new();
    let mut i: usize = 0;
    while i < files.len()
        invariant
            i <= files@.len(),
            out@ == file_pages(files@).take(i as int),
        decreases files@.len() - i,
    {
        out.push(files[i].page.copy());
        i = i + 1;
        assert(out@ =~= file_pages(files@).take(i as int));
    }
    assert(out@ =~= file_pages(files@));
    out
}

/// Begins a production build over pages that are on disk. It is refused where
/// two of the pages are the same.
pub fn apply_prod_asset_pipeline(
    pages: &Vec<ProdRenderedFile>,
    inputs: ProdAssetEmitterInputs,
) -> (r: Result<ProdBuild, DuplicatePages>)
    ensures
        ({
            let all = file_pages(pages@);
            let unique = page_key_set(all).len();
            match r {
                Ok(build) => {
                    &&& unique == all.len()
                    &&& emits(build.pipeline.production_emitters(), inputs)
                    &&& build.run.sound()
                    &&& build.run@.short_hashed()
                    &&& page_key_set(build.run@.setup.pages) == page_key_set(all)
                    &&& ascending(page_keys(build.run@.setup.pages))
                    &&& build.run@ == build_opened(
                        prod_plan(all),
                        list_with_all(Seq::empty(), all),
                        build.pipeline.production_emitters(),
                    ).begin()
                },
                Err(e) => unique != all.len() && e.pages == all.len() && e.unique == unique,
            }
        }),
{
    let pipeline = ProductionAssetPipeline::new(build_emitters(inputs));
    let list = pages_of_files(pages);
    let selection = PageSet::from_list(&list);
    if selection.len() != pages.len() {
        return Err(DuplicatePages { pages: pages.len(), unique: selection.len() });
    }
    let mut plan = RebuildPlan::empty();
    plan.pages = PageSelection::Specific(selection);
    plan.rerun_css = true;
    plan.rerun_islands = true;
    plan.rerun_client_scripts = true;
    plan.renderer_fresh = true;
    assert(plan@ =~= prod_plan(list@));
    let run = pipeline.start(&plan);
    Ok(ProdBuild { pipeline, run })
}

/// Copies the text of the pages into the list that the build asks for. The
/// files are in the order of the pages, whatever was asked for.
pub fn rendered_from_disk(files: Vec<ProdRenderedFile>, html: Vec<String>) -> (r: Vec<
    RenderedPage,
>)
    requires
        files@.len() == html@.len(),
    ensures
        r@.len() == files@.len(),
        forall|i: int|
            0 <= i < r@.len() ==> (#[trigger] r@[i]).page == files@[i].page && r@[i].output_path
                == files@[i].output_path && r@[i].html == html@[i] && r@[i].content_type is None,
{
    let ghost all = files@;
    let ghost bodies = html@;
    let mut left = files;
    let mut rest = html;
    let mut out: Vec<RenderedPage> = Vec::new();
    while left.len() > 0
        invariant
            out@.len() + left@.len() == all.len(),
            left@ == all.skip(out@.len() as int),
            rest@ == bodies.skip(out@.len() as int),
            all.len() == bodies.len(),
            forall|i: int|
                0 <= i < out@.len() ==> (#[trigger] out@[i]).page == all[i].page
                    && out@[i].output_path == all[i].output_path && out@[i].html == bodies[i]
                    && out@[i].content_type is None,
        decreases left@.len(),
    {
        let ghost done = out@.len() as int;
        let file = left.remove(0);
        let body = rest.remove(0);
        assert(left@ =~= all.skip(done + 1));
        assert(rest@ =~= bodies.skip(done + 1));
        out.push(
            RenderedPage {
                page: file.page,
                output_path: file.output_path,
                html: body,
                content_type: None,
            },
        );
    }
    out
}

} // verus!
