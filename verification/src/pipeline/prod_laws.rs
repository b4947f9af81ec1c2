//! What holds of every production build, whatever the answers are.

use vstd::prelude::*;

use crate::page::PageId;
use crate::path::{parent_parts, parts, Part};
use crate::pipeline::asset::{
    flat_name, hashed_name, lemma_companion_beside_asset, lemma_hash_changes_name_only,
    lemma_last_dot, name_or_empty, Asset,
};
use crate::pipeline::hash::lemma_hexadecimal_is_no_path;
use crate::pipeline::prod::{
    build_opened, kind_of, prod_answers, prod_error_of, prod_stepped, Build, BuildWait, ProdAnswer,
    ProductionEmitters, Slot,
};
use crate::pipeline::rewrite::{
    all_seamless, by_length, lemma_becomes, lemma_no_old_url_leaks, lemma_urls_are_rewritten,
    rewritten, stands_in,
};
use crate::pipeline::{Outcome, RenderedPage};
use crate::plan::Plan;

verus! {

/// The asset is emitted before this many others.
pub open spec fn slot_index(slot: Slot) -> nat {
    match slot {
        Slot::Css => 0,
        Slot::Islands => 1,
        Slot::Script(k) => 2 + k as nat,
    }
}

impl Build {
    /// The stages of a build, in their order: rendering, the assets one after
    /// the other, the pages, the end.
    pub open spec fn stage(self) -> nat {
        match self.wait {
            BuildWait::Render => 0,
            BuildWait::Emit(slot) => 1 + 2 * slot_index(slot),
            BuildWait::Ship { slot, .. } => 2 + 2 * slot_index(slot),
            BuildWait::Page => 5 + 2 * self.setup.scripts,
            BuildWait::Finished => 6 + 2 * self.setup.scripts,
        }
    }

    /// How much of the stage is left.
    pub open spec fn left_in_stage(self) -> nat {
        match self.wait {
            BuildWait::Ship { asset, next, .. } => (asset.file_count() - next) as nat,
            BuildWait::Page => self.queue.len(),
            _ => 0,
        }
    }

    /// The build waits for something that it can come to wait for.
    pub open spec fn in_order(self) -> bool {
        &&& self.setup.scripts <= usize::MAX
        &&& match self.wait {
            BuildWait::Emit(Slot::Script(k)) => k < self.setup.scripts,
            BuildWait::Ship { slot, asset, next, .. } => next <= asset.companions.len() && (slot
                matches Slot::Script(k) ==> k < self.setup.scripts),
            BuildWait::Page => self.queue.len() > 0,
            _ => true,
        }
    }
}

/// The pages of a list of rendered pages.
pub open spec fn pages_of(list: Seq<RenderedPage>) -> Seq<PageId> {
    list.map_values(|r: RenderedPage| r.page)
}

/// `next` is where `build` comes to without any answer in between.
spec fn moves_to(build: Build, next: Build, stage: nat) -> bool {
    &&& next.in_order()
    &&& next.setup == build.setup
    &&& next.outcome == build.outcome
    &&& next.queue == build.queue
    &&& next.rewrites == build.rewrites || next.rewrites == by_length(build.rewrites)
    &&& next.stage() >= stage
    &&& next.wait is Finished ==> next.queue.len() == 0
    &&& !(next.wait is Ship)
}

proof fn lemma_to_pages(build: Build)
    requires
        build.setup.scripts <= usize::MAX,
    ensures
        moves_to(build, build.to_pages(), 5 + 2 * build.setup.scripts),
        moves_to(build, build.to_page(), 5 + 2 * build.setup.scripts),
{
    reveal(Build::to_pages);
    reveal(Build::to_page);
}

proof fn lemma_to_script(build: Build, k: int)
    requires
        0 <= k,
        build.setup.scripts <= usize::MAX,
    ensures
        k <= build.setup.scripts ==> moves_to(build, build.to_script(k), (5 + 2 * k) as nat),
{
    reveal(Build::to_script);
    lemma_to_pages(build);
}

proof fn lemma_to_assets(build: Build)
    requires
        build.setup.scripts <= usize::MAX,
    ensures
        moves_to(build, build.to_islands(), 3),
        moves_to(build, build.to_css(), 1),
{
    reveal(Build::to_islands);
    reveal(Build::to_css);
    lemma_to_script(build, 0);
}

proof fn lemma_after_slot(build: Build, slot: Slot)
    requires
        build.setup.scripts <= usize::MAX,
        slot matches Slot::Script(k) ==> k < build.setup.scripts,
    ensures
        moves_to(build, build.after_slot(slot), 3 + 2 * slot_index(slot)),
{
    reveal(Build::after_slot);
    lemma_to_assets(build);
    lemma_to_script(build, 0);
    if let Slot::Script(k) = slot {
        lemma_to_script(build, k + 1);
    }
}

/// What becomes of the outcome when the asset is shipped.
pub open spec fn reported(outcome: Outcome, slot: Slot, asset: Asset, hash: Seq<char>) -> Outcome {
    let named = Outcome {
        hashed_asset_urls: outcome.hashed_asset_urls.push((kind_of(slot), asset.url(hash))),
        ..outcome
    };
    match slot {
        Slot::Css => Outcome { css_changed: true, ..named },
        Slot::Islands => Outcome { islands_changed: true, ..named },
        Slot::Script(_) => named,
    }
}

proof fn lemma_shipped(build: Build, slot: Slot, asset: Asset, hash: Seq<char>)
    requires
        build.setup.scripts <= usize::MAX,
        slot matches Slot::Script(k) ==> k < build.setup.scripts,
    ensures
        ({
            let next = build.shipped(slot, asset, hash);
            &&& next.in_order()
            &&& next.setup == build.setup
            &&& next.queue == build.queue
            &&& next.stage() >= 3 + 2 * slot_index(slot)
            &&& next.outcome == reported(build.outcome, slot, asset, hash)
            &&& next.wait is Finished ==> next.queue.len() == 0
            &&& !(next.wait is Ship)
        }),
{
    reveal(Build::shipped);
    let url = asset.url(hash);
    let next = Build {
        outcome: Outcome {
            hashed_asset_urls: build.outcome.hashed_asset_urls.push((kind_of(slot), url)),
            ..build.outcome
        },
        rewrites: match asset.stable_url {
            Some(stable) => build.rewrites.push((stable, url)),
            None => build.rewrites,
        },
        ..build
    }.changed(slot);
    lemma_after_slot(next, slot);
}

/// A build starts in order, with nothing written.
pub proof fn lemma_build_begins<T>(plan: Plan, pages: Seq<PageId>, emitters: ProductionEmitters<T>)
    requires
        emitters.client_scripts@.len() <= usize::MAX,
    ensures
        ({
            let build = build_opened(plan, pages, emitters).begin();
            &&& build.in_order()
            &&& build.outcome.pages_written.len() == 0
            &&& build.outcome.hashed_asset_urls.len() == 0
            &&& build.queue.len() == 0
        }),
{
    reveal(Build::begin);
    lemma_to_assets(build_opened(plan, pages, emitters));
}

proof fn lemma_written(build: Build)
    requires
        build.in_order(),
        build.wait is Ship || build.wait is Page,
    ensures
        ({
            let next = build.after_written();
            &&& next.in_order()
            &&& next.setup == build.setup
            &&& next.stage() > build.stage() || next.stage() == build.stage()
                && next.left_in_stage() < build.left_in_stage()
            &&& !build.companion_refused() && next.wait is Finished ==> next.queue.len() == 0
        }),
{
    reveal(Build::after_written);
    match build.wait {
        BuildWait::Ship { slot, asset, hash, next } => {
            if next == asset.companions.len() {
                lemma_shipped(build, slot, asset, hash);
            }
        },
        _ => {
            let next = Build {
                outcome: Outcome {
                    pages_written: build.outcome.pages_written.push(build.queue[0].page),
                    ..build.outcome
                },
                queue: build.queue.drop_first(),
                ..build
            };
            reveal(Build::to_page);
        },
    }
}

/// Whatever the answer, the build goes on to a later stage, or the stage has
/// less left. So all assets are shipped before any page is written, and every
/// build comes to an end; one that was not refused ends with every page
/// written.
pub proof fn lemma_build_goes_forward<E>(build: Build, answer: ProdAnswer<E>)
    requires
        build.in_order(),
        prod_answers(build.wait, answer),
    ensures
        ({
            let next = prod_stepped(build, answer);
            &&& next.in_order()
            &&& next.setup == build.setup
            &&& next.stage() > build.stage() || next.stage() == build.stage()
                && next.left_in_stage() < build.left_in_stage()
            &&& prod_error_of(answer) is None && !build.companion_refused()
                && next.wait is Finished ==> next.queue.len() == 0
        }),
{
    match answer {
        ProdAnswer::Rendered(Ok(rendered)) => {
            reveal(Build::after_rendered);
            lemma_to_assets(
                Build {
                    outcome: Outcome { pages_rendered: rendered@.len(), ..build.outcome },
                    queue: rendered@,
                    ..build
                },
            );
        },
        ProdAnswer::Emitted(Ok(None)) => {
            lemma_after_slot(build, build.wait->Emit_0);
        },
        ProdAnswer::Written(Ok(_)) => {
            lemma_written(build);
        },
        _ => {},
    }
}

/// What a build is to do never changes.
pub proof fn lemma_setup_stays<E>(build: Build, answer: ProdAnswer<E>)
    ensures
        prod_stepped(build, answer).setup == build.setup,
{
    reveal(Build::after_rendered);
    reveal(Build::after_written);
    reveal(Build::shipped);
    reveal(Build::after_slot);
    reveal(Build::to_css);
    reveal(Build::to_islands);
    reveal(Build::to_script);
    reveal(Build::to_pages);
    reveal(Build::to_page);
}

/// The outcome names one URL for each asset that is shipped: it gains one with
/// the last file of an asset, and none at any other time.
pub proof fn lemma_one_url_per_asset<E>(build: Build, answer: ProdAnswer<E>)
    requires
        build.in_order(),
        prod_answers(build.wait, answer),
    ensures
        ({
            let before = build.outcome.hashed_asset_urls;
            let after = prod_stepped(build, answer).outcome.hashed_asset_urls;
            match build.wait {
                BuildWait::Ship { slot, asset, hash, next } => after == if prod_error_of(
                    answer,
                ) is None && next == asset.companions.len() {
                    before.push((kind_of(slot), asset.url(hash)))
                } else {
                    before
                },
                _ => after == before,
            }
        }),
{
    match answer {
        ProdAnswer::Rendered(Ok(rendered)) => {
            reveal(Build::after_rendered);
            lemma_to_assets(
                Build {
                    outcome: Outcome { pages_rendered: rendered@.len(), ..build.outcome },
                    queue: rendered@,
                    ..build
                },
            );
        },
        ProdAnswer::Emitted(Ok(None)) => {
            lemma_after_slot(build, build.wait->Emit_0);
        },
        ProdAnswer::Written(Ok(_)) => {
            reveal(Build::after_written);
            match build.wait {
                BuildWait::Ship { slot, asset, hash, next } => {
                    if next == asset.companions.len() {
                        lemma_shipped(build, slot, asset, hash);
                    }
                },
                _ => {
                    reveal(Build::to_page);
                },
            }
        },
        _ => {},
    }
}

/// Each rendered page is written once, in the order in which it was rendered:
/// what has been written and what still waits is always the same list.
pub proof fn lemma_pages_written_once<E>(build: Build, answer: ProdAnswer<E>)
    requires
        build.in_order(),
        prod_answers(build.wait, answer),
        !(build.wait is Render),
    ensures
        ({
            let next = prod_stepped(build, answer);
            next.outcome.pages_written + pages_of(next.queue) == build.outcome.pages_written
                + pages_of(build.queue)
        }),
{
    match answer {
        ProdAnswer::Emitted(Ok(None)) => {
            lemma_after_slot(build, build.wait->Emit_0);
        },
        ProdAnswer::Written(Ok(_)) => {
            reveal(Build::after_written);
            match build.wait {
                BuildWait::Ship { slot, asset, hash, next } => {
                    if next == asset.companions.len() {
                        lemma_shipped(build, slot, asset, hash);
                    }
                },
                _ => {
                    reveal(Build::to_page);
                    let first = build.queue[0].page;
                    assert(build.outcome.pages_written.push(first) + pages_of(
                        build.queue.drop_first(),
                    ) =~= build.outcome.pages_written + pages_of(build.queue));
                },
            }
        },
        _ => {},
    }
}

/// No stable URL leaks into a page: in what is written, none of the URLs that
/// are to be replaced stands by itself, where none of them is also a hashed one.
pub proof fn lemma_no_stable_url_leaks(build: Build, page: RenderedPage, i: int)
    requires
        0 <= i < build.rewrites.len(),
        all_seamless(build.rewrites),
        forall|k: int|
            0 <= k < build.rewrites.len() ==> build.rewrites[i].0 != (
            #[trigger] build.rewrites[k]).1,
    ensures
        !stands_in(rewritten(page.html@, build.rewrites), build.rewrites[i].0),
{
    let url = build.rewrites[i].0;
    if stands_in(rewritten(page.html@, build.rewrites), url) {
        lemma_no_old_url_leaks(page.html@, build.rewrites, url, i);
    }
}

/// Where a page names an asset by its stable URL, what is written names it by
/// the hashed one, where no URL is to be replaced twice.
pub proof fn lemma_pages_name_hashed_urls(build: Build, page: RenderedPage, i: int)
    requires
        0 <= i < build.rewrites.len(),
        all_seamless(build.rewrites),
        forall|j: int|
            0 <= j < build.rewrites.len() && j != i ==> build.rewrites[i].0 != (
            #[trigger] build.rewrites[j]).0,
        forall|j: int|
            0 <= j < build.rewrites.len() ==> build.rewrites[i].1 != (
            #[trigger] build.rewrites[j]).0,
        stands_in(page.html@, build.rewrites[i].0),
    ensures
        stands_in(rewritten(page.html@, build.rewrites), build.rewrites[i].1),
{
    lemma_becomes(build.rewrites, build.rewrites[i].0, build.rewrites[i].1);
    assert(build.rewrites.contains(build.rewrites[i]));
    lemma_urls_are_rewritten(page.html@, build.rewrites, build.rewrites[i].0);
}

/// Every file of an asset is shipped in the asset's own directory: the asset
/// itself under a name with its hash, which its content decides, and its
/// companions, whose names are flat, beside it under their own names.
pub proof fn lemma_shipped_in_its_directory(build: Build)
    requires
        build.short_hashed(),
        build.wait is Ship,
    ensures
        ({
            let asset = build.wait->Ship_asset;
            let hash = build.wait->Ship_hash;
            let dir = parent_parts(parts(asset.relative_path));
            &&& parts(asset.dest(hash)) == dir.push(
                Part::Normal(hashed_name(name_or_empty(asset.relative_path), hash)),
            )
            &&& asset.dest(hash) != asset.relative_path
            &&& forall|k: int|
                0 <= k < asset.companions.len() && flat_name(asset.companions[k].0)
                    && asset.companions[k].0 != seq!['.'] ==> parts(
                    #[trigger] asset.companion_path(hash, k),
                ) == dir.push(Part::Normal(asset.companions[k].0))
        }),
{
    let asset = build.wait->Ship_asset;
    let hash = build.wait->Ship_hash;
    let path = asset.relative_path;
    lemma_hexadecimal_is_no_path(hash);
    lemma_hash_changes_name_only(path, hash);
    assert(asset.dest(hash) != path) by {
        if asset.dest(hash) == path {
            let name = name_or_empty(path);
            lemma_last_dot(name);
            assert(hashed_name(name, hash).len() > name.len());
        }
    }
    assert forall|k: int|
        0 <= k < asset.companions.len() && flat_name(asset.companions[k].0)
            && asset.companions[k].0 != seq!['.'] implies parts(
        #[trigger] asset.companion_path(hash, k),
    ) == parent_parts(parts(path)).push(Part::Normal(asset.companions[k].0)) by {
        lemma_companion_beside_asset(asset, hash, k);
    }
}

} // verus!
