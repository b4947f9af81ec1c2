//! What whole production builds do, from what they are supplied with to what is
//! written and reported.

use vstd::prelude::*;

use crate::page::{lemma_nothing_listed, list_with_all, PageId};
use crate::path::{last_dot, stem_of};
use crate::pipeline::asset::{
    hashed_name, lemma_hash_changes_name_only, lemma_last_dot, lemma_url_is_hashed, name_or_empty,
    Asset,
};
use crate::pipeline::dev::bytes_of;
use crate::pipeline::hash::{
    hexadecimal, is_hex_digit, lemma_hexadecimal_is_no_path, sha256_digest, short_hash,
};
use crate::pipeline::orchestrator::{
    emits, file_pages, opt_asset, prod_plan, AssetEmitterPayload, PayloadEmitter,
    ProdAssetEmitterInputs, ProdRenderedFile,
};
use crate::pipeline::prod::{
    build_opened, kind_of, lemma_begin_keeps_setup, prod_acts, prod_answers, prod_error_of,
    prod_stepped, Build, BuildSetup, BuildWait, ProdAction, ProdAnswer, ProductionEmitters, Slot,
};
use crate::pipeline::prod_laws::{lemma_setup_stays, pages_of};
use crate::pipeline::rewrite::{
    by_length, lemma_becomes, lemma_by_length, lemma_no_old_url_leaks, lemma_urls_are_rewritten,
    rewritten, seamless, stands_in, url_boundary,
};
use crate::pipeline::{AssetKind, Outcome, RenderedPage};
use crate::plan::Plan;
use crate::text::has_suffix;

verus! {

/// What a build is supplied with: what its emitters have, and the pages.
pub struct Supply {
    pub css: Option<Asset>,
    pub islands: Option<Asset>,
    pub scripts: Seq<Option<Asset>>,
    pub pages: Seq<RenderedPage>,
}

impl Supply {
    /// What the emitter has.
    pub open spec fn asset(self, slot: Slot) -> Option<Asset> {
        match slot {
            Slot::Css => self.css,
            Slot::Islands => self.islands,
            Slot::Script(k) => self.scripts[k as int],
        }
    }

    /// The pages that are written: those that were rendered, where any were
    /// selected.
    pub open spec fn shown(self, setup: BuildSetup) -> Seq<RenderedPage> {
        if setup.pages.len() > 0 {
            self.pages
        } else {
            Seq::empty()
        }
    }

    /// The asset of this slot, where it is shipped.
    pub open spec fn part(self, setup: BuildSetup, slot: Slot) -> Seq<(Slot, Asset)> {
        match self.asset(slot) {
            Some(asset) => if asked_for(setup, slot) {
                seq![(slot, asset)]
            } else {
                Seq::empty()
            },
            None => Seq::empty(),
        }
    }

    /// The client scripts among the first `n` that are shipped.
    pub open spec fn first_scripts(self, setup: BuildSetup, n: nat) -> Seq<(Slot, Asset)>
        decreases n,
    {
        if n == 0 {
            Seq::empty()
        } else {
            let k = (n - 1) as nat;
            self.first_scripts(setup, k) + self.part(setup, Slot::Script(k as usize))
        }
    }

    /// The assets that are shipped before this one.
    pub open spec fn before(self, setup: BuildSetup, slot: Slot) -> Seq<(Slot, Asset)> {
        let css = self.part(setup, Slot::Css);
        match slot {
            Slot::Css => Seq::empty(),
            Slot::Islands => css,
            Slot::Script(k) => css + self.part(setup, Slot::Islands) + self.first_scripts(
                setup,
                k as nat,
            ),
        }
    }

    /// The assets that are shipped: the stylesheet, the islands bundle and the
    /// client scripts, in this order.
    pub open spec fn assets(self, setup: BuildSetup) -> Seq<(Slot, Asset)> {
        self.part(setup, Slot::Css) + self.part(setup, Slot::Islands) + self.first_scripts(
            setup,
            setup.scripts,
        )
    }
}

/// The build asks for the asset of this slot.
pub open spec fn asked_for(setup: BuildSetup, slot: Slot) -> bool {
    match slot {
        Slot::Css => setup.rerun_css && setup.has_css,
        Slot::Islands => setup.rerun_islands && setup.has_islands,
        Slot::Script(k) => setup.rerun_client_scripts && k < setup.scripts,
    }
}

/// The hash under which an asset is shipped.
pub open spec fn hash_of(asset: Asset) -> Seq<char> {
    short_hash(sha256_digest(asset.bytes))
}

/// The URLs under which the assets are shipped, one for each.
pub open spec fn urls_of(list: Seq<(Slot, Asset)>) -> Seq<(AssetKind, Seq<char>)> {
    list.map_values(|p: (Slot, Asset)| (kind_of(p.0), p.1.url(hash_of(p.1))))
}

/// The URLs by which pages name the assets, each with the one that takes its
/// place.
pub open spec fn rewrites_of(list: Seq<(Slot, Asset)>) -> Seq<(Seq<char>, Seq<char>)>
    decreases list.len(),
{
    if list.len() == 0 {
        Seq::empty()
    } else {
        let before = rewrites_of(list.drop_last());
        let asset = list.last().1;
        match asset.stable_url {
            Some(stable) => before.push((stable, asset.url(hash_of(asset)))),
            None => before,
        }
    }
}

/// The files of an asset: itself, and its companions.
pub open spec fn asset_files(asset: Asset) -> Seq<(Seq<char>, Seq<u8>)> {
    Seq::new(
        asset.file_count(),
        |i: int|
            if i == 0 {
                (asset.dest(hash_of(asset)), asset.bytes)
            } else {
                (asset.companion_path(hash_of(asset), i - 1), asset.companions[i - 1].1)
            },
    )
}

/// The files of the assets, one asset after the other.
pub open spec fn files_of(list: Seq<(Slot, Asset)>) -> Seq<(Seq<char>, Seq<u8>)>
    decreases list.len(),
{
    if list.len() == 0 {
        Seq::empty()
    } else {
        files_of(list.drop_last()) + asset_files(list.last().1)
    }
}

/// The pages as they are written, with their URLs replaced.
pub open spec fn page_files(
    pages: Seq<RenderedPage>,
    rewrites: Seq<(Seq<char>, Seq<char>)>,
) -> Seq<(Seq<char>, Seq<u8>)> {
    pages.map_values(
        |p: RenderedPage| (p.output_path@, bytes_of(rewritten(p.html@, rewrites))),
    )
}

/// The asset of this slot is in the list.
pub open spec fn ships(list: Seq<(Slot, Asset)>, slot: Slot) -> bool {
    exists|i: int| 0 <= i < list.len() && (#[trigger] list[i]).0 == slot
}

/// What is reported of a build that has shipped these assets and written the
/// first `done` of these pages.
pub open spec fn report(
    setup: BuildSetup,
    list: Seq<(Slot, Asset)>,
    pages: Seq<RenderedPage>,
    done: int,
) -> Outcome {
    Outcome {
        css_rerun: setup.rerun_css,
        css_changed: ships(list, Slot::Css),
        islands_rerun: setup.rerun_islands,
        islands_changed: ships(list, Slot::Islands),
        hashed_asset_urls: urls_of(list),
        pages_rendered: pages.len(),
        pages_written: pages_of(pages).take(done),
        ..Outcome::nothing()
    }
}

/// A build, and what has been written.
pub struct BuildScene {
    pub build: Build,
    /// The files that were written below the dist root, in order.
    pub files: Seq<(Seq<char>, Seq<u8>)>,
}

/// The file whose write the build waits for.
pub open spec fn awaited(build: Build) -> (Seq<char>, Seq<u8>) {
    match build.wait {
        BuildWait::Ship { slot, asset, hash, next } => if next == 0 {
            (asset.dest(hash), asset.bytes)
        } else {
            (asset.companion_path(hash, next - 1), asset.companions[next - 1].1)
        },
        _ => (
            build.queue[0].output_path@,
            bytes_of(rewritten(build.queue[0].html@, build.rewrites)),
        ),
    }
}

/// What a build asks to be written is what it waits for.
pub proof fn lemma_awaited_is_asked_for(build: Build, action: ProdAction)
    requires
        build.wait is Ship || build.wait is Page,
        prod_acts(build, action),
    ensures
        match action {
            ProdAction::WriteAsset { path, bytes } => awaited(build) == (path@, bytes@),
            ProdAction::WriteCompanion { path, bytes } => awaited(build) == (path@, bytes@),
            ProdAction::WritePage { page, path, bytes } => awaited(build) == (path@, bytes@),
            _ => false,
        },
{
}

impl BuildScene {
    /// The build and what has been written after an answer.
    pub open spec fn after<E>(self, answer: ProdAnswer<E>) -> BuildScene {
        BuildScene {
            build: prod_stepped(self.build, answer),
            files: match answer {
                ProdAnswer::Written(Ok(_)) => self.files.push(awaited(self.build)),
                _ => self.files,
            },
        }
    }
}

/// The answer is one of a build that is supplied like this and that nothing
/// stops: it is no error, and no companion has a name that is refused. Hashes
/// are hashes.
pub open spec fn serves<E>(supply: Supply, scene: BuildScene, answer: ProdAnswer<E>) -> bool {
    &&& prod_answers(scene.build.wait, answer)
    &&& prod_error_of(answer) is None
    &&& !scene.build.companion_refused()
    &&& prod_stepped(scene.build, answer).short_hashed()
    &&& match answer {
        ProdAnswer::Rendered(Ok(rendered)) => rendered@ == supply.pages,
        ProdAnswer::Emitted(Ok(Some(asset))) => supply.asset(scene.build.wait->Emit_0) == Some(
            asset@,
        ),
        ProdAnswer::Emitted(Ok(None)) => supply.asset(scene.build.wait->Emit_0) is None,
        _ => true,
    }
}

/// Where a build stands after these answers.
pub open spec fn built<E>(scene: BuildScene, list: Seq<ProdAnswer<E>>) -> BuildScene
    decreases list.len(),
{
    if list.len() == 0 {
        scene
    } else {
        built(scene, list.drop_last()).after(list.last())
    }
}

/// The answers are, one after another, those of a build that is supplied like
/// this and that nothing stops.
pub open spec fn serve<E>(supply: Supply, scene: BuildScene, list: Seq<ProdAnswer<E>>) -> bool {
    forall|i: int|
        0 <= i < list.len() ==> serves(supply, built(scene, #[trigger] list.take(i)), list[i])
}

/// Where a build starts.
pub open spec fn build_started<T>(
    plan: Plan,
    pages: Seq<PageId>,
    emitters: ProductionEmitters<T>,
) -> BuildScene {
    BuildScene {
        build: build_opened(plan, pages, emitters).begin(),
        files: Seq::empty(),
    }
}

/// The hashes of the assets are made of hexadecimal digits.
spec fn well_hashed(list: Seq<(Slot, Asset)>) -> bool {
    forall|i: int|
        0 <= i < list.len() ==> hexadecimal(hash_of((#[trigger] list[i]).1)) && hash_of(
            list[i].1,
        ).len() == 8
}

/// These assets are shipped, and nothing else is done.
spec fn has_shipped(supply: Supply, scene: BuildScene, list: Seq<(Slot, Asset)>) -> bool {
    let build = scene.build;
    let pages = supply.shown(build.setup);
    &&& build.setup.scripts <= usize::MAX
    &&& build.queue == pages
    &&& build.rewrites == rewrites_of(list)
    &&& build.outcome == report(build.setup, list, pages, 0)
    &&& well_hashed(list)
}

/// The build stands where its supply has brought it.
spec fn on_track(supply: Supply, scene: BuildScene) -> bool {
    let build = scene.build;
    let setup = build.setup;
    let pages = supply.shown(setup);
    let all = supply.assets(setup);
    let rewrites = by_length(rewrites_of(all));
    &&& setup.scripts <= usize::MAX
    &&& match build.wait {
        BuildWait::Render => {
            &&& setup.pages.len() > 0
            &&& build.queue.len() == 0
            &&& build.rewrites.len() == 0
            &&& build.outcome == report(setup, Seq::empty(), Seq::empty(), 0)
            &&& scene.files.len() == 0
        },
        BuildWait::Emit(slot) => {
            &&& asked_for(setup, slot)
            &&& has_shipped(supply, scene, supply.before(setup, slot))
            &&& scene.files == files_of(supply.before(setup, slot))
        },
        BuildWait::Ship { slot, asset, hash, next } => {
            &&& asked_for(setup, slot)
            &&& supply.asset(slot) == Some(asset)
            &&& hash == hash_of(asset)
            &&& hexadecimal(hash) && hash.len() == 8
            &&& next <= asset.companions.len()
            &&& has_shipped(supply, scene, supply.before(setup, slot))
            &&& scene.files == files_of(supply.before(setup, slot)) + asset_files(asset).take(
                next as int,
            )
        },
        BuildWait::Page => {
            let done = pages.len() - build.queue.len();
            &&& 0 <= done < pages.len()
            &&& build.queue == pages.skip(done)
            &&& build.rewrites == rewrites
            &&& build.outcome == report(setup, all, pages, done)
            &&& scene.files == files_of(all) + page_files(pages, rewrites).take(done)
            &&& well_hashed(all)
        },
        BuildWait::Finished => {
            &&& build.queue.len() == 0
            &&& build.rewrites == rewrites
            &&& build.outcome == report(setup, all, pages, pages.len() as int)
            &&& scene.files == files_of(all) + page_files(pages, rewrites)
            &&& well_hashed(all)
        },
    }
}

proof fn lemma_at_pages(supply: Supply, scene: BuildScene)
    requires
        has_shipped(supply, scene, supply.assets(scene.build.setup)),
        scene.files == files_of(supply.assets(scene.build.setup)),
    ensures
        on_track(supply, BuildScene { build: scene.build.to_pages(), files: scene.files }),
{
    reveal(Build::to_pages);
    reveal(Build::to_page);
    let build = scene.build;
    let pages = supply.shown(build.setup);
    let all = supply.assets(build.setup);
    let rewrites = by_length(rewrites_of(all));
    assert(pages.skip(0) =~= pages);
    assert(page_files(pages, rewrites).take(0) =~= Seq::empty());
    assert(files_of(all) + Seq::<(Seq<char>, Seq<u8>)>::empty() =~= files_of(all));
    if pages.len() == 0 {
        assert(page_files(pages, rewrites) =~= Seq::empty());
    }
}

proof fn lemma_no_scripts(supply: Supply, setup: BuildSetup, n: nat)
    requires
        !setup.rerun_client_scripts,
    ensures
        supply.first_scripts(setup, n) == Seq::<(Slot, Asset)>::empty(),
    decreases n,
{
    if n > 0 {
        lemma_no_scripts(supply, setup, (n - 1) as nat);
        assert(supply.first_scripts(setup, n) =~= Seq::empty());
    }
}

proof fn lemma_at_script(supply: Supply, scene: BuildScene, k: int)
    requires
        0 <= k <= scene.build.setup.scripts,
        scene.build.setup.scripts <= usize::MAX,
        has_shipped(supply, scene, supply.before(scene.build.setup, Slot::Script(k as usize))),
        scene.files == files_of(supply.before(scene.build.setup, Slot::Script(k as usize))),
    ensures
        on_track(supply, BuildScene { build: scene.build.to_script(k), files: scene.files }),
{
    reveal(Build::to_script);
    let setup = scene.build.setup;
    if !(setup.rerun_client_scripts && k < setup.scripts) {
        if !setup.rerun_client_scripts {
            lemma_no_scripts(supply, setup, k as nat);
            lemma_no_scripts(supply, setup, setup.scripts);
        }
        assert(supply.before(setup, Slot::Script(k as usize)) == supply.assets(setup));
        lemma_at_pages(supply, scene);
    }
}

proof fn lemma_at_islands(supply: Supply, scene: BuildScene)
    requires
        has_shipped(supply, scene, supply.before(scene.build.setup, Slot::Islands)),
        scene.files == files_of(supply.before(scene.build.setup, Slot::Islands)),
    ensures
        on_track(supply, BuildScene { build: scene.build.to_islands(), files: scene.files }),
{
    reveal(Build::to_islands);
    let setup = scene.build.setup;
    if !asked_for(setup, Slot::Islands) {
        assert(supply.before(setup, Slot::Script(0)) =~= supply.before(setup, Slot::Islands));
        lemma_at_script(supply, scene, 0);
    }
}

proof fn lemma_at_css(supply: Supply, scene: BuildScene)
    requires
        has_shipped(supply, scene, Seq::empty()),
        scene.files.len() == 0,
    ensures
        on_track(supply, BuildScene { build: scene.build.to_css(), files: scene.files }),
{
    reveal(Build::to_css);
    let setup = scene.build.setup;
    assert(scene.files =~= files_of(Seq::empty()));
    if !asked_for(setup, Slot::Css) {
        assert(supply.before(setup, Slot::Islands) =~= Seq::empty());
        lemma_at_islands(supply, scene);
    }
}

/// The asset of this slot is done with.
proof fn lemma_at_next(supply: Supply, scene: BuildScene, slot: Slot)
    requires
        asked_for(scene.build.setup, slot),
        scene.build.setup.scripts <= usize::MAX,
        has_shipped(
            supply,
            scene,
            supply.before(scene.build.setup, slot) + supply.part(scene.build.setup, slot),
        ),
        scene.files == files_of(
            supply.before(scene.build.setup, slot) + supply.part(scene.build.setup, slot),
        ),
    ensures
        on_track(supply, BuildScene { build: scene.build.after_slot(slot), files: scene.files }),
{
    reveal(Build::after_slot);
    let setup = scene.build.setup;
    let list = supply.before(setup, slot) + supply.part(setup, slot);
    match slot {
        Slot::Css => {
            assert(list =~= supply.before(setup, Slot::Islands));
            lemma_at_islands(supply, scene);
        },
        Slot::Islands => {
            assert(list =~= supply.before(setup, Slot::Script(0)));
            lemma_at_script(supply, scene, 0);
        },
        Slot::Script(k) => {
            assert(((k + 1) as usize) as nat == k + 1);
            assert(list =~= supply.before(setup, Slot::Script((k + 1) as usize)));
            lemma_at_script(supply, scene, k + 1);
        },
    }
}

/// One more asset is one more URL, and its files.
proof fn lemma_one_more(list: Seq<(Slot, Asset)>, slot: Slot, asset: Asset)
    ensures
        ({
            let more = list.push((slot, asset));
            let url = asset.url(hash_of(asset));
            &&& files_of(more) == files_of(list) + asset_files(asset)
            &&& urls_of(more) == urls_of(list).push((kind_of(slot), url))
            &&& rewrites_of(more) == match asset.stable_url {
                Some(stable) => rewrites_of(list).push((stable, url)),
                None => rewrites_of(list),
            }
            &&& forall|s: Slot| #[trigger] ships(more, s) <==> ships(list, s) || s == slot
        }),
{
    let more = list.push((slot, asset));
    assert(more.drop_last() =~= list);
    assert(urls_of(more) =~= urls_of(list).push((kind_of(slot), asset.url(hash_of(asset)))));
    assert forall|s: Slot| #[trigger] ships(more, s) <==> ships(list, s) || s == slot by {
        if ships(list, s) {
            let i = choose|i: int| 0 <= i < list.len() && (#[trigger] list[i]).0 == s;
            assert(more[i].0 == s);
        }
        if s == slot {
            assert(more[list.len() as int].0 == s);
        }
        if ships(more, s) && s != slot {
            let i = choose|i: int| 0 <= i < more.len() && (#[trigger] more[i]).0 == s;
            assert(list[i].0 == s);
        }
    }
}

proof fn lemma_tracks_emitted<E>(supply: Supply, scene: BuildScene, answer: ProdAnswer<E>)
    requires
        on_track(supply, scene),
        serves(supply, scene, answer),
        answer is Emitted,
    ensures
        on_track(supply, scene.after(answer)),
{
    let slot = scene.build.wait->Emit_0;
    let setup = scene.build.setup;
    let list = supply.before(setup, slot);
    match answer {
        ProdAnswer::Emitted(Ok(Some(asset))) => {
            assert(asset_files(asset@).take(0) =~= Seq::empty());
            assert(files_of(list) + asset_files(asset@).take(0) =~= files_of(list));
        },
        _ => {
            assert(list + supply.part(setup, slot) =~= list);
            lemma_at_next(supply, scene, slot);
        },
    }
}

proof fn lemma_tracks_shipped<E>(supply: Supply, scene: BuildScene, answer: ProdAnswer<E>)
    requires
        on_track(supply, scene),
        serves(supply, scene, answer),
        answer is Written,
        scene.build.wait is Ship,
    ensures
        on_track(supply, scene.after(answer)),
{
    reveal(Build::after_written);
    let build = scene.build;
    let setup = build.setup;
    let slot = build.wait->Ship_slot;
    let asset = build.wait->Ship_asset;
    let hash = build.wait->Ship_hash;
    let next = build.wait->next as int;
    let list = supply.before(setup, slot);
    let own = asset_files(asset);
    assert(own.take(next + 1) =~= own.take(next).push(own[next]));
    assert(own[next] == awaited(build));
    let files = scene.files.push(awaited(build));
    assert(files =~= files_of(list) + own.take(next + 1));
    if next == asset.companions.len() {
        reveal(Build::shipped);
        assert(own.take(next + 1) =~= own);
        lemma_one_more(list, slot, asset);
        let more = list.push((slot, asset));
        let url = asset.url(hash);
        let done = Build {
            outcome: Outcome {
                hashed_asset_urls: build.outcome.hashed_asset_urls.push((kind_of(slot), url)),
                ..build.outcome
            },
            rewrites: match asset.stable_url {
                Some(stable) => build.rewrites.push((stable, url)),
                None => build.rewrites,
            },
            ..build
        }.changed(slot);
        assert(list + supply.part(setup, slot) =~= more);
        assert(ships(more, Slot::Css) <==> ships(list, Slot::Css) || slot == Slot::Css);
        assert(ships(more, Slot::Islands) <==> ships(list, Slot::Islands) || slot
            == Slot::Islands);
        assert(well_hashed(more)) by {
            assert forall|i: int| 0 <= i < more.len() implies hexadecimal(
                hash_of((#[trigger] more[i]).1),
            ) && hash_of(more[i].1).len() == 8 by {
                if i < list.len() {
                    assert(more[i] == list[i]);
                }
            }
        }
        lemma_at_next(supply, BuildScene { build: done, files }, slot);
    }
}

proof fn lemma_tracks_page<E>(supply: Supply, scene: BuildScene, answer: ProdAnswer<E>)
    requires
        on_track(supply, scene),
        serves(supply, scene, answer),
        answer is Written,
        scene.build.wait is Page,
    ensures
        on_track(supply, scene.after(answer)),
{
    reveal(Build::after_written);
    reveal(Build::to_page);
    let build = scene.build;
    let setup = build.setup;
    let pages = supply.shown(setup);
    let all = supply.assets(setup);
    let done = pages.len() - build.queue.len();
    let files = page_files(pages, build.rewrites);
    assert(build.queue[0] == pages[done]);
    assert(build.queue.drop_first() =~= pages.skip(done + 1));
    assert(pages_of(pages).take(done + 1) =~= pages_of(pages).take(done).push(
        build.queue[0].page,
    ));
    assert(files[done] == awaited(build));
    assert(files.take(done + 1) =~= files.take(done).push(files[done]));
    assert(scene.files.push(awaited(build)) =~= files_of(all) + files.take(done + 1));
    if done + 1 == pages.len() {
        assert(files.take(done + 1) =~= files);
    }
}

proof fn lemma_stays_on_track<E>(supply: Supply, scene: BuildScene, answer: ProdAnswer<E>)
    requires
        on_track(supply, scene),
        serves(supply, scene, answer),
    ensures
        on_track(supply, scene.after(answer)),
        scene.after(answer).build.setup == scene.build.setup,
{
    lemma_setup_stays(scene.build, answer);
    match answer {
        ProdAnswer::Rendered(Ok(rendered)) => {
            reveal(Build::after_rendered);
            let build = scene.build;
            let next = Build {
                outcome: Outcome { pages_rendered: rendered@.len(), ..build.outcome },
                queue: rendered@,
                ..build
            };
            assert(pages_of(supply.pages).take(0) =~= Seq::empty());
            assert(pages_of(Seq::empty()).take(0) =~= Seq::empty());
            assert(build.rewrites =~= rewrites_of(Seq::empty()));
            lemma_at_css(supply, BuildScene { build: next, files: scene.files });
        },
        ProdAnswer::Emitted(_) => {
            lemma_tracks_emitted(supply, scene, answer);
        },
        _ => {
            if scene.build.wait is Ship {
                lemma_tracks_shipped(supply, scene, answer);
            } else {
                lemma_tracks_page(supply, scene, answer);
            }
        },
    }
}

proof fn lemma_starts_on_track<T>(
    supply: Supply,
    plan: Plan,
    pages: Seq<PageId>,
    emitters: ProductionEmitters<T>,
)
    requires
        emitters.client_scripts@.len() <= usize::MAX,
    ensures
        on_track(supply, build_started(plan, pages, emitters)),
{
    reveal(Build::begin);
    let build = build_opened(plan, pages, emitters);
    let shown = supply.shown(build.setup);
    assert(pages_of(Seq::empty()).take(0) =~= Seq::empty());
    assert(urls_of(Seq::empty()) =~= Seq::empty());
    assert(!ships(Seq::empty(), Slot::Css) && !ships(Seq::empty(), Slot::Islands));
    if pages.len() == 0 {
        lemma_at_css(supply, BuildScene { build, files: Seq::empty() });
    }
}

proof fn lemma_built_on_track<E>(supply: Supply, scene: BuildScene, list: Seq<ProdAnswer<E>>)
    requires
        on_track(supply, scene),
        serve(supply, scene, list),
    ensures
        on_track(supply, built(scene, list)),
        built(scene, list).build.setup == scene.build.setup,
    decreases list.len(),
{
    if list.len() > 0 {
        let init = list.drop_last();
        assert(list.take(list.len() - 1) =~= init);
        assert forall|i: int| 0 <= i < init.len() implies serves(
            supply,
            built(scene, #[trigger] init.take(i)),
            init[i],
        ) by {
            assert(init.take(i) =~= list.take(i));
        }
        lemma_built_on_track(supply, scene, init);
        lemma_stays_on_track(supply, built(scene, init), list.last());
    }
}

/// A build that nothing stops does what it is supplied for, and nothing else. It
/// writes the files of each asset, one asset after the other, and behind them
/// the pages in the order in which they were rendered, with their URLs replaced.
/// It reports one URL for each asset, and every page.
pub proof fn lemma_whole_build<E, T>(
    supply: Supply,
    plan: Plan,
    pages: Seq<PageId>,
    emitters: ProductionEmitters<T>,
    list: Seq<ProdAnswer<E>>,
)
    requires
        emitters.client_scripts@.len() <= usize::MAX,
        serve(supply, build_started(plan, pages, emitters), list),
        built(build_started(plan, pages, emitters), list).build.wait is Finished,
    ensures
        ({
            let end = built(build_started(plan, pages, emitters), list);
            let setup = end.build.setup;
            let all = supply.assets(setup);
            let shown = supply.shown(setup);
            &&& setup == build_opened(plan, pages, emitters).setup
            &&& end.files == files_of(all) + page_files(shown, by_length(rewrites_of(all)))
            &&& end.build.outcome == report(setup, all, shown, shown.len() as int)
            &&& end.build.outcome.hashed_asset_urls == urls_of(all)
            &&& end.build.outcome.pages_written == pages_of(shown)
        }),
{
    let start = build_started(plan, pages, emitters);
    lemma_starts_on_track(supply, plan, pages, emitters);
    lemma_built_on_track(supply, start, list);
    lemma_begin_keeps_setup(build_opened(plan, pages, emitters));
    let shown = supply.shown(start.build.setup);
    assert(pages_of(shown).take(shown.len() as int) =~= pages_of(shown));
}

/// Where pages name the asset by a URL, that is one, and it ends with the name
/// of the asset.
pub open spec fn named_by_url(asset: Asset) -> bool {
    asset.stable_url matches Some(url) ==> seamless(url) && seamless(
        name_or_empty(asset.relative_path),
    ) && has_suffix(url, name_or_empty(asset.relative_path))
}

/// No asset is named by the URL under which another one is shipped.
pub open spec fn urls_apart(list: Seq<(Slot, Asset)>) -> bool {
    forall|i: int, j: int|
        0 <= i < list.len() && 0 <= j < list.len() && i != j && (#[trigger] list[j]).1.stable_url
            is Some ==> (#[trigger] list[i]).1.stable_url != Some(
            list[j].1.url(hash_of(list[j].1)),
        )
}

/// A hash puts nothing into a URL that ends one.
proof fn lemma_hashed_name_seamless(name: Seq<char>, hash: Seq<char>)
    requires
        seamless(name),
        hexadecimal(hash),
    ensures
        seamless(hashed_name(name, hash)),
{
    lemma_last_dot(name);
    let new = hashed_name(name, hash);
    assert forall|i: int| 0 <= i < hash.len() implies !url_boundary(#[trigger] hash[i]) by {
        assert(is_hex_digit(hash[i]));
    }
    let stem = stem_of(name);
    let front = stem.push('-') + hash;
    assert forall|i: int| 0 <= i < stem.len() implies !url_boundary(#[trigger] stem[i]) by {
        assert(stem[i] == name[i]);
    }
    assert forall|i: int| 0 <= i < new.len() implies !url_boundary(#[trigger] new[i]) by {
        if i < stem.len() {
            assert(new[i] == stem[i]);
        } else if stem.len() < i < front.len() {
            assert(new[i] == hash[i - stem.len() - 1]);
        } else if i > front.len() {
            let ext = name.skip(last_dot(name) + 1);
            assert(new[i] == ext[i - front.len() - 1]);
            assert(ext[i - front.len() - 1] == name[last_dot(name) + 1 + i - front.len() - 1]);
        }
    }
}

/// The URL under which an asset is shipped is one too, and is another.
proof fn lemma_shipped_url(asset: Asset, url: Seq<char>)
    requires
        asset.stable_url == Some(url),
        named_by_url(asset),
        hexadecimal(hash_of(asset)),
        hash_of(asset).len() == 8,
    ensures
        seamless(asset.url(hash_of(asset))),
        asset.url(hash_of(asset)) != url,
{
    let hash = hash_of(asset);
    let name = name_or_empty(asset.relative_path);
    lemma_hexadecimal_is_no_path(hash);
    lemma_url_is_hashed(url, asset.relative_path, hash);
    lemma_hash_changes_name_only(asset.relative_path, hash);
    lemma_hashed_name_seamless(name, hash);
    let cut = url.len() - name.len();
    let new = asset.url(hash);
    assert(new == url.take(cut) + hashed_name(name, hash));
    assert forall|i: int| 0 <= i < new.len() implies !url_boundary(#[trigger] new[i]) by {
        if i < cut {
            assert(new[i] == url[i]);
        } else {
            assert(new[i] == hashed_name(name, hash)[i - cut]);
        }
    }
}

/// Each replacement is that of an asset.
proof fn lemma_rewrite_of(list: Seq<(Slot, Asset)>, k: int) -> (i: int)
    requires
        0 <= k < rewrites_of(list).len(),
    ensures
        0 <= i < list.len(),
        list[i].1.stable_url == Some(rewrites_of(list)[k].0),
        rewrites_of(list)[k].1 == list[i].1.url(hash_of(list[i].1)),
    decreases list.len(),
{
    let init = list.drop_last();
    if k < rewrites_of(init).len() {
        let i = lemma_rewrite_of(init, k);
        assert(init[i] == list[i]);
        i
    } else {
        list.len() - 1
    }
}

/// Each asset that pages name has a replacement.
proof fn lemma_has_rewrite(list: Seq<(Slot, Asset)>, i: int)
    requires
        0 <= i < list.len(),
        list[i].1.stable_url is Some,
    ensures
        rewrites_of(list).contains(
            (list[i].1.stable_url->0, list[i].1.url(hash_of(list[i].1))),
        ),
    decreases list.len(),
{
    let init = list.drop_last();
    let all = rewrites_of(list);
    let before = rewrites_of(init);
    let pair = (list[i].1.stable_url->0, list[i].1.url(hash_of(list[i].1)));
    if i < init.len() {
        assert(init[i] == list[i]);
        lemma_has_rewrite(init, i);
        let k = choose|k: int| 0 <= k < before.len() && before[k] == pair;
        assert(all[k] == pair);
    } else {
        assert(all[before.len() as int] == pair);
    }
}

proof fn lemma_sorted_has(list: Seq<(Seq<char>, Seq<char>)>, pair: (Seq<char>, Seq<char>))
    ensures
        by_length(list).contains(pair) <==> list.contains(pair),
{
    lemma_by_length(list, 0);
    by_length(list).to_multiset_ensures();
    list.to_multiset_ensures();
    assert(by_length(list).to_multiset().count(pair) == list.to_multiset().count(pair));
}

/// No URL by which pages name an asset stands by itself in any page that a build
/// has written. Where the page was rendered with that URL, the one under which
/// the asset is shipped stands there, unless another asset goes by the same.
///
/// This is so where each such URL ends with the name of its asset, and none is
/// also the URL under which another asset is shipped.
pub proof fn lemma_no_stable_url_in_build<E, T>(
    supply: Supply,
    plan: Plan,
    pages: Seq<PageId>,
    emitters: ProductionEmitters<T>,
    list: Seq<ProdAnswer<E>>,
    p: int,
    i: int,
)
    requires
        emitters.client_scripts@.len() <= usize::MAX,
        serve(supply, build_started(plan, pages, emitters), list),
        built(build_started(plan, pages, emitters), list).build.wait is Finished,
        ({
            let setup = build_opened(plan, pages, emitters).setup;
            let all = supply.assets(setup);
            &&& 0 <= p < supply.shown(setup).len()
            &&& 0 <= i < all.len()
            &&& all[i].1.stable_url is Some
            &&& forall|j: int| 0 <= j < all.len() ==> named_by_url((#[trigger] all[j]).1)
            &&& urls_apart(all)
        }),
    ensures
        ({
            let end = built(build_started(plan, pages, emitters), list);
            let setup = build_opened(plan, pages, emitters).setup;
            let all = supply.assets(setup);
            let page = supply.shown(setup)[p];
            let text = rewritten(page.html@, by_length(rewrites_of(all)));
            let url = all[i].1.stable_url->0;
            &&& end.files[files_of(all).len() + p] == (page.output_path@, bytes_of(text))
            &&& !stands_in(text, url)
            &&& stands_in(page.html@, url) && (forall|j: int|
                0 <= j < all.len() && j != i ==> (#[trigger] all[j]).1.stable_url != Some(url))
                ==> stands_in(text, all[i].1.url(hash_of(all[i].1)))
        }),
{
    let start = build_started(plan, pages, emitters);
    let opened = build_opened(plan, pages, emitters);
    lemma_begin_keeps_setup(opened);
    lemma_starts_on_track(supply, plan, pages, emitters);
    lemma_built_on_track(supply, start, list);
    lemma_whole_build(supply, plan, pages, emitters, list);
    let setup = opened.setup;
    let all = supply.assets(setup);
    let shown = supply.shown(setup);
    let page = shown[p];
    let sorted = by_length(rewrites_of(all));
    let url = all[i].1.stable_url->0;
    let new = all[i].1.url(hash_of(all[i].1));
    assert(page_files(shown, sorted)[p] == (
        page.output_path@,
        bytes_of(rewritten(page.html@, sorted)),
    ));
    assert forall|k: int| 0 <= k < sorted.len() implies seamless((#[trigger] sorted[k]).0)
        && seamless(sorted[k].1) && sorted[k].1 != url && sorted[k].0 != new && (sorted[k].0 == url
        && (forall|j: int|
        0 <= j < all.len() && j != i ==> (#[trigger] all[j]).1.stable_url != Some(url))
        ==> sorted[k].1 == new) by {
        let pair = sorted[k];
        assert(sorted.contains(pair));
        lemma_sorted_has(rewrites_of(all), pair);
        let m = choose|m: int| 0 <= m < rewrites_of(all).len() && rewrites_of(all)[m] == pair;
        let j = lemma_rewrite_of(all, m);
        assert(named_by_url(all[j].1) && named_by_url(all[i].1));
        lemma_shipped_url(all[j].1, pair.0);
        lemma_shipped_url(all[i].1, url);
        if j != i {
            assert(all[i].1.stable_url != Some(all[j].1.url(hash_of(all[j].1))));
            assert(all[j].1.stable_url != Some(new));
        }
    }
    assert(named_by_url(all[i].1));
    if stands_in(rewritten(page.html@, sorted), url) {
        lemma_has_rewrite(all, i);
        lemma_sorted_has(rewrites_of(all), (url, new));
        let k = choose|k: int| 0 <= k < sorted.len() && sorted[k] == (url, new);
        lemma_no_old_url_leaks(page.html@, sorted, url, k);
    }
    if stands_in(page.html@, url) && (forall|j: int|
        0 <= j < all.len() && j != i ==> (#[trigger] all[j]).1.stable_url != Some(url)) {
        lemma_has_rewrite(all, i);
        lemma_sorted_has(rewrites_of(all), (url, new));
        lemma_becomes(sorted, url, new);
        lemma_urls_are_rewritten(page.html@, sorted, url);
    }
}

/// The assets of the inputs, in the order in which they are shipped.
pub open spec fn input_assets(inputs: ProdAssetEmitterInputs) -> Seq<(Slot, Asset)> {
    let css = match inputs.css {
        Some(payload) => seq![(Slot::Css, payload.asset())],
        None => Seq::empty(),
    };
    let islands = match inputs.islands {
        Some(payload) => seq![(Slot::Islands, payload.asset())],
        None => Seq::empty(),
    };
    css + islands + script_assets(inputs, inputs.client_scripts@.len())
}

/// The assets of the first `n` client scripts of the inputs.
pub open spec fn script_assets(inputs: ProdAssetEmitterInputs, n: nat) -> Seq<(Slot, Asset)> {
    Seq::new(n, |k: int| (Slot::Script(k as usize), inputs.client_scripts@[k].asset()))
}

/// What a build over files that are on disk is supplied with.
pub open spec fn supply_of(inputs: ProdAssetEmitterInputs, pages: Seq<RenderedPage>) -> Supply {
    Supply {
        css: opt_asset(inputs.css),
        islands: opt_asset(inputs.islands),
        scripts: inputs.client_scripts@.map_values(|p: AssetEmitterPayload| Some(p.asset())),
        pages,
    }
}

proof fn lemma_all_scripts(
    inputs: ProdAssetEmitterInputs,
    pages: Seq<RenderedPage>,
    setup: BuildSetup,
    n: nat,
)
    requires
        n <= setup.scripts,
        setup.scripts == inputs.client_scripts@.len(),
        setup.scripts <= usize::MAX,
        setup.rerun_client_scripts,
    ensures
        supply_of(inputs, pages).first_scripts(setup, n) == script_assets(inputs, n),
    decreases n,
{
    let supply = supply_of(inputs, pages);
    if n > 0 {
        let k = (n - 1) as nat;
        lemma_all_scripts(inputs, pages, setup, k);
        assert(supply.scripts[k as int] == Some(inputs.client_scripts@[k as int].asset()));
        assert(script_assets(inputs, n) =~= script_assets(inputs, k) + supply.part(
            setup,
            Slot::Script(k as usize),
        ));
    } else {
        assert(script_assets(inputs, 0) =~= Seq::empty());
    }
}

/// A build over pages that are on disk ships every asset of its inputs, and
/// reports one URL for each. It writes every page back, in order, with the URLs
/// by which pages name the assets replaced.
pub proof fn lemma_all_inputs_are_shipped<E>(
    files: Seq<ProdRenderedFile>,
    inputs: ProdAssetEmitterInputs,
    emitters: ProductionEmitters<PayloadEmitter>,
    rendered: Seq<RenderedPage>,
    list: Seq<ProdAnswer<E>>,
)
    requires
        emits(emitters, inputs),
        emitters.client_scripts@.len() <= usize::MAX,
        rendered.len() == files.len(),
        ({
            let pages = file_pages(files);
            let start = build_started(
                prod_plan(pages),
                list_with_all(Seq::empty(), pages),
                emitters,
            );
            &&& serve(supply_of(inputs, rendered), start, list)
            &&& built(start, list).build.wait is Finished
        }),
    ensures
        ({
            let pages = file_pages(files);
            let start = build_started(
                prod_plan(pages),
                list_with_all(Seq::empty(), pages),
                emitters,
            );
            let end = built(start, list);
            let all = input_assets(inputs);
            &&& supply_of(inputs, rendered).assets(start.build.setup) == all
            &&& end.build.outcome.hashed_asset_urls == urls_of(all)
            &&& end.build.outcome.pages_written == pages_of(rendered)
            &&& end.files == files_of(all) + page_files(rendered, by_length(rewrites_of(all)))
        }),
{
    let pages = file_pages(files);
    let named = list_with_all(Seq::empty(), pages);
    let supply = supply_of(inputs, rendered);
    let opened = build_opened(prod_plan(pages), named, emitters);
    lemma_begin_keeps_setup(opened);
    let setup = opened.setup;
    lemma_whole_build(supply, prod_plan(pages), named, emitters, list);
    lemma_nothing_listed(Seq::empty(), pages);
    let scripts = emitters.client_scripts@.map_values(|e: PayloadEmitter| e.asset());
    assert(scripts.len() == inputs.client_scripts@.len());
    lemma_all_scripts(inputs, rendered, setup, setup.scripts);
    assert(supply.assets(setup) =~= input_assets(inputs));
    assert(supply.shown(setup) =~= rendered);
}

} // verus!
