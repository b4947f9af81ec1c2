//! What a whole production build ships, asset by asset and page by page.

use vstd::prelude::*;

use crate::page::{page_key_set, PageId};
use crate::pipeline::asset::Asset;
use crate::pipeline::build_laws::{
    asset_files, build_started, built, files_of, lemma_whole_build, page_files, rewrites_of, serve,
    ships, urls_of, Supply,
};
use crate::pipeline::dev::bytes_of;
use crate::pipeline::hash::{sha256_digest, short_hash};
use crate::pipeline::orchestrator::{
    emits, prod_plan, PayloadEmitter, ProdAssetEmitterInputs, AssetEmitterPayload,
};
use crate::pipeline::prod::{
    build_opened, kind_of, prod_acts, prod_answers, prod_stepped, Build, BuildSetup, BuildWait,
    ProdAction, ProdAnswer, ProductionEmitters, Slot,
};
use crate::pipeline::rewrite::{by_length, byte_len, lemma_by_length, rewritten};
use crate::pipeline::{AssetKind, Outcome};
use crate::plan::{Plan, Selection};

verus! {

/// The plan asks for the asset, there is something to produce it, and that has
/// one.
pub open spec fn supplied<T>(
    supply: Supply,
    plan: Plan,
    emitters: ProductionEmitters<T>,
    slot: Slot,
    asset: Asset,
) -> bool {
    match slot {
        Slot::Css => plan.rerun_css && emitters.css is Some && supply.css == Some(asset),
        Slot::Islands => plan.rerun_islands && emitters.islands is Some && supply.islands == Some(
            asset,
        ),
        Slot::Script(k) => plan.rerun_client_scripts && k < emitters.client_scripts@.len()
            && supply.scripts[k as int] == Some(asset),
    }
}

/// The kind of asset that the slot is for.
pub open spec fn slot_kind(slot: Slot) -> AssetKind {
    match slot {
        Slot::Css => AssetKind::Css,
        Slot::Islands => AssetKind::Islands,
        Slot::Script(_) => AssetKind::ClientScript,
    }
}

proof fn lemma_scripts(supply: Supply, setup: BuildSetup, n: nat, slot: Slot, asset: Asset)
    requires
        n <= setup.scripts <= usize::MAX,
    ensures
        supply.first_scripts(setup, n).contains((slot, asset)) <==> (slot matches Slot::Script(k)
            && k < n && setup.rerun_client_scripts && supply.scripts[k as int] == Some(asset)),
    decreases n,
{
    let all = supply.first_scripts(setup, n);
    if n > 0 {
        let k = (n - 1) as nat;
        lemma_scripts(supply, setup, k, slot, asset);
        let before = supply.first_scripts(setup, k);
        let more = supply.part(setup, Slot::Script(k as usize));
        lemma_joined(before, more, (slot, asset));
        lemma_part(supply, setup, Slot::Script(k as usize), slot, asset);
    }
}

proof fn lemma_joined<A>(a: Seq<A>, b: Seq<A>, x: A)
    ensures
        (a + b).contains(x) <==> a.contains(x) || b.contains(x),
{
    let all = a + b;
    if a.contains(x) {
        let i = choose|i: int| 0 <= i < a.len() && a[i] == x;
        assert(all[i] == x);
    }
    if b.contains(x) {
        let i = choose|i: int| 0 <= i < b.len() && b[i] == x;
        assert(all[a.len() + i] == x);
    }
    if all.contains(x) {
        let i = choose|i: int| 0 <= i < all.len() && all[i] == x;
        if i < a.len() {
            assert(a[i] == x);
        } else {
            assert(b[i - a.len()] == x);
        }
    }
}

proof fn lemma_part(supply: Supply, setup: BuildSetup, at: Slot, slot: Slot, asset: Asset)
    ensures
        supply.part(setup, at).contains((slot, asset)) <==> slot == at && supply.asset(at) == Some(
            asset,
        ) && match at {
            Slot::Css => setup.rerun_css && setup.has_css,
            Slot::Islands => setup.rerun_islands && setup.has_islands,
            Slot::Script(k) => setup.rerun_client_scripts && k < setup.scripts,
        },
{
    let part = supply.part(setup, at);
    if part.contains((slot, asset)) {
        let i = choose|i: int| 0 <= i < part.len() && part[i] == (slot, asset);
        assert(i == 0);
    }
    if part.len() > 0 && slot == at && supply.asset(at) == Some(asset) {
        assert(part[0] == (slot, asset));
    }
}

/// The assets of a build, in terms of what it was begun with.
proof fn lemma_assets<T>(
    supply: Supply,
    plan: Plan,
    pages: Seq<PageId>,
    emitters: ProductionEmitters<T>,
    slot: Slot,
    asset: Asset,
)
    requires
        emitters.client_scripts@.len() <= usize::MAX,
    ensures
        supply.assets(build_opened(plan, pages, emitters).setup).contains((slot, asset))
            <==> supplied(supply, plan, emitters, slot, asset),
{
    let setup = build_opened(plan, pages, emitters).setup;
    let css = supply.part(setup, Slot::Css);
    let islands = supply.part(setup, Slot::Islands);
    let scripts = supply.first_scripts(setup, setup.scripts);
    lemma_joined(css + islands, scripts, (slot, asset));
    lemma_joined(css, islands, (slot, asset));
    lemma_part(supply, setup, Slot::Css, slot, asset);
    lemma_part(supply, setup, Slot::Islands, slot, asset);
    lemma_scripts(supply, setup, setup.scripts, slot, asset);
}

proof fn lemma_files(list: Seq<(Slot, Asset)>, pair: (Slot, Asset), i: int)
    requires
        list.contains(pair),
        0 <= i < asset_files(pair.1).len(),
    ensures
        files_of(list).contains(asset_files(pair.1)[i]),
    decreases list.len(),
{
    let file = asset_files(pair.1)[i];
    let init = list.drop_last();
    lemma_joined(files_of(init), asset_files(list.last().1), file);
    let k = choose|k: int| 0 <= k < list.len() && list[k] == pair;
    if k < init.len() {
        assert(init[k] == pair);
        lemma_files(init, pair, i);
    } else {
        assert(asset_files(list.last().1)[i] == file);
    }
}

/// A build that nothing stops ships every asset that the plan asks for and that
/// there is: the asset itself under the hash of its content, each of its
/// companions with its content, and with one URL that the build reports. A new
/// stylesheet and a new islands bundle are reported as such.
pub proof fn lemma_asset_is_shipped<E, T>(
    supply: Supply,
    plan: Plan,
    pages: Seq<PageId>,
    emitters: ProductionEmitters<T>,
    list: Seq<ProdAnswer<E>>,
    slot: Slot,
    asset: Asset,
)
    requires
        emitters.client_scripts@.len() <= usize::MAX,
        serve(supply, build_started(plan, pages, emitters), list),
        built(build_started(plan, pages, emitters), list).build.wait is Finished,
        supplied(supply, plan, emitters, slot, asset),
    ensures
        ({
            let end = built(build_started(plan, pages, emitters), list);
            let hash = short_hash(sha256_digest(asset.bytes));
            &&& end.files.contains((asset.dest(hash), asset.bytes))
            &&& forall|k: int|
                0 <= k < asset.companions.len() ==> #[trigger] end.files.contains(
                    (asset.companion_path(hash, k), asset.companions[k].1),
                )
            &&& end.build.outcome.hashed_asset_urls.contains((slot_kind(slot), asset.url(hash)))
            &&& slot == Slot::Css ==> end.build.outcome.css_changed
            &&& slot == Slot::Islands ==> end.build.outcome.islands_changed
        }),
{
    lemma_whole_build(supply, plan, pages, emitters, list);
    let end = built(build_started(plan, pages, emitters), list);
    let setup = build_opened(plan, pages, emitters).setup;
    let all = supply.assets(setup);
    let shown = supply.shown(setup);
    let hash = short_hash(sha256_digest(asset.bytes));
    let pair = (slot, asset);
    lemma_assets(supply, plan, pages, emitters, slot, asset);
    let behind = page_files(shown, by_length(rewrites_of(all)));
    let files = asset_files(asset);
    lemma_files(all, pair, 0);
    lemma_joined(files_of(all), behind, files[0]);
    assert forall|k: int| 0 <= k < asset.companions.len() implies #[trigger] end.files.contains(
        (asset.companion_path(hash, k), asset.companions[k].1),
    ) by {
        lemma_files(all, pair, k + 1);
        lemma_joined(files_of(all), behind, files[k + 1]);
    }
    let i = choose|i: int| 0 <= i < all.len() && all[i] == pair;
    assert(urls_of(all)[i] == (slot_kind(slot), asset.url(hash)));
    assert(all[i].0 == slot);
    assert(ships(all, slot));
}

/// Every URL that a build reports is that of an asset that the plan asked for,
/// under the hash of its content; and a new stylesheet or islands bundle is
/// reported only where there is one.
pub proof fn lemma_nothing_else_is_shipped<E, T>(
    supply: Supply,
    plan: Plan,
    pages: Seq<PageId>,
    emitters: ProductionEmitters<T>,
    list: Seq<ProdAnswer<E>>,
    i: int,
)
    requires
        emitters.client_scripts@.len() <= usize::MAX,
        serve(supply, build_started(plan, pages, emitters), list),
        built(build_started(plan, pages, emitters), list).build.wait is Finished,
    ensures
        ({
            let outcome = built(build_started(plan, pages, emitters), list).build.outcome;
            let urls = outcome.hashed_asset_urls;
            &&& 0 <= i < urls.len() ==> exists|slot: Slot, asset: Asset|
                supplied(supply, plan, emitters, slot, asset) && urls[i] == (
                    slot_kind(slot),
                    #[trigger] asset.url(short_hash(sha256_digest(asset.bytes))),
                ) && #[trigger] slot_kind(slot) == slot_kind(slot)
            &&& outcome.css_changed ==> plan.rerun_css && emitters.css is Some
                && supply.css is Some
            &&& outcome.islands_changed ==> plan.rerun_islands && emitters.islands is Some
                && supply.islands is Some
            &&& outcome.css_rerun == plan.rerun_css
            &&& outcome.islands_rerun == plan.rerun_islands
        }),
{
    lemma_whole_build(supply, plan, pages, emitters, list);
    let setup = build_opened(plan, pages, emitters).setup;
    let all = supply.assets(setup);
    let outcome = built(build_started(plan, pages, emitters), list).build.outcome;
    let urls = outcome.hashed_asset_urls;
    if 0 <= i < urls.len() {
        let (slot, asset) = all[i];
        assert(all.contains(all[i]));
        lemma_assets(supply, plan, pages, emitters, slot, asset);
        assert(urls[i] == (slot_kind(slot), asset.url(short_hash(sha256_digest(asset.bytes)))));
    }
    if outcome.css_changed {
        let k = choose|k: int| 0 <= k < all.len() && (#[trigger] all[k]).0 == Slot::Css;
        assert(all.contains(all[k]));
        lemma_assets(supply, plan, pages, emitters, Slot::Css, all[k].1);
    }
    if outcome.islands_changed {
        let k = choose|k: int| 0 <= k < all.len() && (#[trigger] all[k]).0 == Slot::Islands;
        assert(all.contains(all[k]));
        lemma_assets(supply, plan, pages, emitters, Slot::Islands, all[k].1);
    }
}

/// Where pages were selected, a build that nothing stops writes every rendered
/// page, in the order in which it was rendered, behind all files of the assets,
/// at the path that it wants; and reports as many pages as were rendered.
pub proof fn lemma_every_page_is_written<E, T>(
    supply: Supply,
    plan: Plan,
    pages: Seq<PageId>,
    emitters: ProductionEmitters<T>,
    list: Seq<ProdAnswer<E>>,
    p: int,
)
    requires
        emitters.client_scripts@.len() <= usize::MAX,
        serve(supply, build_started(plan, pages, emitters), list),
        built(build_started(plan, pages, emitters), list).build.wait is Finished,
        pages.len() > 0,
        0 <= p < supply.pages.len(),
    ensures
        ({
            let end = built(build_started(plan, pages, emitters), list);
            let n = supply.pages.len();
            &&& end.files.len() >= n
            &&& end.files[end.files.len() - n + p].0 == supply.pages[p].output_path@
            &&& end.build.outcome.pages_rendered == n
            &&& end.build.outcome.pages_written.len() == n
            &&& end.build.outcome.pages_written[p] == supply.pages[p].page
        }),
{
    lemma_whole_build(supply, plan, pages, emitters, list);
    let setup = build_opened(plan, pages, emitters).setup;
    let all = supply.assets(setup);
    let shown = supply.shown(setup);
    let end = built(build_started(plan, pages, emitters), list);
    let behind = page_files(shown, by_length(rewrites_of(all)));
    assert(shown == supply.pages);
    assert(end.files[end.files.len() - behind.len() + p] == behind[p]);
}

/// What the outside says goes where it belongs: a rendered page waits to be
/// written, an asset is shipped in the slot that was asked for, under the hash of
/// its own content, and begins with its own file.
pub proof fn lemma_what_a_build_is_told<E>(build: Build, answer: ProdAnswer<E>)
    ensures
        ({
            let next = prod_stepped(build, answer);
            &&& answer matches ProdAnswer::Emitted(Ok(Some(asset))) ==> build.wait is Emit
                ==> next.wait == (BuildWait::Ship {
                slot: build.wait->Emit_0,
                asset: asset@,
                hash: short_hash(sha256_digest(asset.bytes@)),
                next: 0,
            })
            &&& answer matches ProdAnswer::Emitted(Err(_)) ==> next.wait is Finished
            &&& answer matches ProdAnswer::Rendered(Err(_)) ==> next.wait is Finished
            &&& answer matches ProdAnswer::Written(Err(_)) ==> next.wait is Finished
        }),
{
}

/// What a build asks for: the pages that were selected, the emitter whose turn it
/// is, the asset's own bytes, a companion's own bytes, and each page at its path.
pub proof fn lemma_what_a_build_asks_for(build: Build, action: ProdAction)
    requires
        prod_acts(build, action),
    ensures
        action is Render <==> build.wait is Render,
        action matches ProdAction::Render { pages } ==> pages@ == build.setup.pages,
        action is Emit <==> build.wait is Emit,
        action matches ProdAction::Emit(slot) ==> slot == build.wait->Emit_0,
        action is WriteAsset <==> build.wait is Ship && build.wait->Ship_next == 0,
        action matches ProdAction::WriteAsset { path, bytes } ==> bytes@
            == build.wait->Ship_asset.bytes && path@ == build.wait->Ship_asset.dest(
            build.wait->Ship_hash,
        ),
        action is WriteCompanion <==> build.wait is Ship && build.wait->Ship_next > 0,
        action matches ProdAction::WriteCompanion { path, bytes } ==> bytes@
            == build.wait->Ship_asset.companions[build.wait->Ship_next - 1].1 && path@
            == build.wait->Ship_asset.companion_path(
            build.wait->Ship_hash,
            build.wait->Ship_next - 1,
        ),
        action is WritePage <==> build.wait is Page,
        action matches ProdAction::WritePage { page, path, bytes } ==> page == build.queue[0].page
            && path@ == build.queue[0].output_path@ && bytes@ == bytes_of(
            rewritten(build.queue[0].html@, build.rewrites),
        ),
        action is Finish <==> build.wait is Finished,
{
}

/// Longer URLs come first, by the bytes that they take.
pub open spec fn longer_first(list: Seq<(Seq<char>, Seq<char>)>) -> bool {
    forall|i: int, j: int|
        0 <= i < j < list.len() ==> vstd::utf8::encode_utf8((#[trigger] list[i]).0).len()
            >= vstd::utf8::encode_utf8((#[trigger] list[j]).0).len()
}

/// The order in which URLs are replaced: longer ones before shorter ones, so that
/// none is replaced as a part of another. None is lost or made up.
pub proof fn lemma_longer_urls_first(list: Seq<(Seq<char>, Seq<char>)>)
    ensures
        longer_first(by_length(list)),
        by_length(list).to_multiset() == list.to_multiset(),
{
    lemma_by_length(list, 0);
    let sorted = by_length(list);
    assert forall|i: int, j: int| 0 <= i < j < sorted.len() implies vstd::utf8::encode_utf8(
        (#[trigger] sorted[i]).0,
    ).len() >= vstd::utf8::encode_utf8((#[trigger] sorted[j]).0).len() by {
        assert(byte_len(sorted[i].0) >= byte_len(sorted[j].0));
    }
}

proof fn lemma_to_pages_sorts(build: Build, k: int)
    ensures
        build.to_pages().wait is Page ==> longer_first(build.to_pages().rewrites),
        build.to_script(k).wait is Page ==> longer_first(build.to_script(k).rewrites),
        build.to_islands().wait is Page ==> longer_first(build.to_islands().rewrites),
        build.to_css().wait is Page ==> longer_first(build.to_css().rewrites),
        build.begin().wait is Page ==> longer_first(build.begin().rewrites),
{
    reveal(Build::begin);
    reveal(Build::to_css);
    reveal(Build::to_islands);
    reveal(Build::to_script);
    reveal(Build::to_pages);
    reveal(Build::to_page);
    lemma_longer_urls_first(build.rewrites);
}

/// Whenever a build writes a page, the URLs that it replaces are in that order:
/// so it is when it begins, and so it stays.
pub proof fn lemma_pages_are_rewritten_in_order<E>(build: Build, answer: ProdAnswer<E>)
    requires
        prod_answers(build.wait, answer),
        build.wait is Page ==> longer_first(build.rewrites),
    ensures
        build.begin().wait is Page ==> longer_first(build.begin().rewrites),
        prod_stepped(build, answer).wait is Page ==> longer_first(
            prod_stepped(build, answer).rewrites,
        ),
{
    lemma_to_pages_sorts(build, 0);
    match answer {
        ProdAnswer::Rendered(Ok(rendered)) => {
            reveal(Build::after_rendered);
            lemma_to_pages_sorts(
                Build {
                    outcome: Outcome { pages_rendered: rendered@.len(), ..build.outcome },
                    queue: rendered@,
                    ..build
                },
                0,
            );
        },
        ProdAnswer::Emitted(Ok(None)) => {
            reveal(Build::after_slot);
            if let Slot::Script(k) = build.wait->Emit_0 {
                lemma_to_pages_sorts(build, k + 1);
            }
        },
        ProdAnswer::Written(Ok(_)) => {
            reveal(Build::after_written);
            reveal(Build::shipped);
            reveal(Build::after_slot);
            if let BuildWait::Ship { slot, asset, hash, .. } = build.wait {
                let url = asset.url(hash);
                let done = Build {
                    outcome: Outcome {
                        hashed_asset_urls: build.outcome.hashed_asset_urls.push(
                            (kind_of(slot), url),
                        ),
                        ..build.outcome
                    },
                    rewrites: match asset.stable_url {
                        Some(stable) => build.rewrites.push((stable, url)),
                        None => build.rewrites,
                    },
                    ..build
                }.changed(slot);
                lemma_to_pages_sorts(done, 0);
                if let Slot::Script(k) = slot {
                    lemma_to_pages_sorts(done, k + 1);
                }
            } else {
                reveal(Build::to_page);
            }
        },
        _ => {},
    }
}

/// The plan of a production build runs every sub-pipeline over all its pages, and
/// neither reloads nor deletes anything.
pub proof fn lemma_production_does_everything(pages: Seq<PageId>)
    ensures
        prod_plan(pages).pages == Selection::Specific(page_key_set(pages)),
        prod_plan(pages).rerun_css,
        prod_plan(pages).rerun_islands,
        prod_plan(pages).rerun_client_scripts,
        prod_plan(pages).renderer_fresh,
        !prod_plan(pages).ssr_reload_needed,
        prod_plan(pages).prune_paths.len() == 0,
        prod_plan(pages).content_narrowing is None,
{
}

/// The emitters of a build have what the inputs hold: the stylesheet and the
/// islands bundle where there is one, and the client scripts in order, each with
/// its bytes, its path, its URL and its companions.
pub proof fn lemma_inputs_are_emitted(
    emitters: ProductionEmitters<PayloadEmitter>,
    inputs: ProdAssetEmitterInputs,
    k: int,
)
    requires
        emits(emitters, inputs),
    ensures
        emitters.css is Some <==> inputs.css is Some,
        emitters.islands is Some <==> inputs.islands is Some,
        emitters.client_scripts@.len() == inputs.client_scripts@.len(),
        inputs.css matches Some(p) ==> holds((emitters.css->0).asset(), p),
        inputs.islands matches Some(p) ==> holds((emitters.islands->0).asset(), p),
        0 <= k < inputs.client_scripts@.len() ==> holds(
            emitters.client_scripts@[k].asset(),
            inputs.client_scripts@[k],
        ),
{
    let a = emitters.client_scripts@.map_values(|e: PayloadEmitter| e.asset());
    let b = inputs.client_scripts@.map_values(|p: AssetEmitterPayload| p.asset());
    assert(a.len() == b.len());
    if 0 <= k < inputs.client_scripts@.len() {
        assert(a[k] == b[k]);
    }
}

/// The asset is what the payload holds.
pub open spec fn holds(asset: Asset, payload: AssetEmitterPayload) -> bool {
    &&& asset.bytes == payload.bytes@
    &&& asset.relative_path == payload.relative_path@
    &&& asset.stable_url == Some(payload.stable_url@)
    &&& asset.companions.len() == payload.companions@.len()
    &&& forall|i: int|
        0 <= i < asset.companions.len() ==> (#[trigger] asset.companions[i]) == (
            payload.companions@[i].filename@,
            payload.companions@[i].bytes@,
        )
}

/// Where the slot stands in a build: the stylesheet first, the islands bundle
/// behind it, and behind that the client scripts, in their order.
pub open spec fn slot_place(slot: Slot) -> int {
    match slot {
        Slot::Css => 0,
        Slot::Islands => 1,
        Slot::Script(k) => 2 + k as int,
    }
}

/// The slot's asset is shipped, and this is its kind with its URL.
pub open spec fn is_url_of<T>(
    supply: Supply,
    plan: Plan,
    emitters: ProductionEmitters<T>,
    slot: Slot,
    url: (AssetKind, Seq<char>),
) -> bool {
    exists|asset: Asset| #[trigger]
        supplied(supply, plan, emitters, slot, asset) && url == (
            slot_kind(slot),
            asset.url(short_hash(sha256_digest(asset.bytes))),
        )
}

proof fn lemma_scripts_in_order(supply: Supply, setup: BuildSetup, n: nat)
    requires
        n <= setup.scripts <= usize::MAX,
    ensures
        forall|i: int|
            0 <= i < supply.first_scripts(setup, n).len() ==> 2 <= slot_place(
                (#[trigger] supply.first_scripts(setup, n)[i]).0,
            ) < 2 + n,
        forall|i: int, j: int|
            0 <= i < j < supply.first_scripts(setup, n).len() ==> slot_place(
                (#[trigger] supply.first_scripts(setup, n)[i]).0,
            ) < slot_place((#[trigger] supply.first_scripts(setup, n)[j]).0),
    decreases n,
{
    if n > 0 {
        let k = (n - 1) as nat;
        lemma_scripts_in_order(supply, setup, k);
        let before = supply.first_scripts(setup, k);
        let all = supply.first_scripts(setup, n);
        assert forall|i: int| 0 <= i < all.len() implies 2 <= slot_place((#[trigger] all[i]).0) < 2
            + n by {
            if i < before.len() {
                assert(all[i] == before[i]);
            }
        }
        assert forall|i: int, j: int| 0 <= i < j < all.len() implies slot_place(
            (#[trigger] all[i]).0,
        ) < slot_place((#[trigger] all[j]).0) by {
            assert(all[i] == before[i]);
            if j < before.len() {
                assert(all[j] == before[j]);
            }
        }
    }
}

/// A build that nothing stops reports one URL for each asset that it ships, the
/// stylesheet's first, the islands bundle's behind it and the client scripts' in
/// their order.
pub proof fn lemma_urls_in_order<E, T>(
    supply: Supply,
    plan: Plan,
    pages: Seq<PageId>,
    emitters: ProductionEmitters<T>,
    list: Seq<ProdAnswer<E>>,
) -> (places: Seq<Slot>)
    requires
        emitters.client_scripts@.len() <= usize::MAX,
        serve(supply, build_started(plan, pages, emitters), list),
        built(build_started(plan, pages, emitters), list).build.wait is Finished,
    ensures
        ({
            let urls = built(
                build_started(plan, pages, emitters),
                list,
            ).build.outcome.hashed_asset_urls;
            &&& places.len() == urls.len()
            &&& forall|i: int, j: int|
                0 <= i < j < places.len() ==> slot_place(#[trigger] places[i]) < slot_place(
                    #[trigger] places[j],
                )
            &&& forall|i: int|
                0 <= i < places.len() ==> is_url_of(
                    supply,
                    plan,
                    emitters,
                    #[trigger] places[i],
                    urls[i],
                )
            &&& forall|slot: Slot, asset: Asset| #[trigger]
                supplied(supply, plan, emitters, slot, asset) ==> places.contains(slot)
        }),
{
    lemma_whole_build(supply, plan, pages, emitters, list);
    let setup = build_opened(plan, pages, emitters).setup;
    let all = supply.assets(setup);
    let urls = built(build_started(plan, pages, emitters), list).build.outcome.hashed_asset_urls;
    let places = all.map_values(|p: (Slot, Asset)| p.0);
    let css = supply.part(setup, Slot::Css);
    let islands = supply.part(setup, Slot::Islands);
    let scripts = supply.first_scripts(setup, setup.scripts);
    lemma_scripts_in_order(supply, setup, setup.scripts);
    assert forall|i: int, j: int| 0 <= i < j < places.len() implies slot_place(
        #[trigger] places[i],
    ) < slot_place(#[trigger] places[j]) by {
        let front = css.len() + islands.len();
        if i >= front {
            assert(all[i] == scripts[i - front]);
        }
        if j >= front {
            assert(all[j] == scripts[j - front]);
        }
    }
    assert forall|i: int| 0 <= i < places.len() implies is_url_of(
        supply,
        plan,
        emitters,
        #[trigger] places[i],
        urls[i],
    ) by {
        let (slot, asset) = all[i];
        assert(all.contains(all[i]));
        lemma_assets(supply, plan, pages, emitters, slot, asset);
        assert(urls[i] == (slot_kind(slot), asset.url(short_hash(sha256_digest(asset.bytes)))));
        assert(supplied(supply, plan, emitters, places[i], asset));
    }
    assert forall|slot: Slot, asset: Asset| #[trigger]
        supplied(supply, plan, emitters, slot, asset) implies places.contains(slot) by {
        lemma_assets(supply, plan, pages, emitters, slot, asset);
        let i = choose|i: int| 0 <= i < all.len() && all[i] == (slot, asset);
        assert(places[i] == slot);
    }
    places
}

} // verus!
