//! Which plugin entries are bundled, how, and what is swept away of it.

use vstd::prelude::*;

use crate::path::{lemma_parent_text, parent_text, parts};
use crate::plan::texts;
use crate::plugin_bundler::{
    bundle_acts, bundle_answers, bundler_args, error_text, has_parent, left_behind, not_found_text,
    to_be_bundled, BundleAction, BundleAnswer, BundleError, Bundling, RunEnd, SpawnEnd,
    SweepCandidate, CONFIG_HINT, PLUGIN_BUNDLE_TEMP_PREFIX, PLUGIN_BUNDLE_TEMP_SUFFIX,
    REQUIRE_SHIM_BANNER,
};
use crate::text::{has_substring, has_suffix, occurs_at};

verus! {

/// An entry is bundled exactly where the last characters of its URL are `.ts`,
/// `.tsx`, `.mts` or `.cts`.
pub proof fn lemma_what_is_bundled(url: Seq<char>)
    ensures
        to_be_bundled(url) <==> {
            let n = url.len() as int;
            ||| n >= 3 && url[n - 3] == '.' && url[n - 2] == 't' && url[n - 1] == 's'
            ||| n >= 4 && url[n - 4] == '.' && url[n - 3] == 't' && url[n - 2] == 's' && url[n - 1]
                == 'x'
            ||| n >= 4 && url[n - 4] == '.' && (url[n - 3] == 'm' || url[n - 3] == 'c') && url[n
                - 2] == 't' && url[n - 1] == 's'
        },
{
    reveal_strlit(".ts");
    reveal_strlit(".tsx");
    reveal_strlit(".mts");
    reveal_strlit(".cts");
    let n = url.len() as int;
    if n >= 3 {
        let end = url.skip(n - 3);
        assert(end[0] == url[n - 3] && end[1] == url[n - 2] && end[2] == url[n - 1]);
        assert(has_suffix(url, ".ts"@) <==> end =~= ".ts"@);
    }
    if n >= 4 {
        let end = url.skip(n - 4);
        assert(end[0] == url[n - 4] && end[1] == url[n - 3] && end[2] == url[n - 2] && end[3]
            == url[n - 1]);
        assert(has_suffix(url, ".tsx"@) <==> end =~= ".tsx"@);
        assert(has_suffix(url, ".mts"@) <==> end =~= ".mts"@);
        assert(has_suffix(url, ".cts"@) <==> end =~= ".cts"@);
    }
}

/// A file is taken for one that was left behind exactly where it is a file, is at
/// least ten minutes old, and is named like a staged bundle: with the prefix in
/// front, the suffix at the end, and anything in between. A directory, a younger
/// file and one of which the age is not known stay.
pub proof fn lemma_what_is_swept(c: SweepCandidate, mid: Seq<char>)
    ensures
        c.name@ == ".zfb-plugin-bundle-"@ + mid + ".mjs"@ ==> (left_behind(c) <==> c.is_file
            && c.age_secs is Some && c.age_secs->0 >= 600),
        left_behind(c) ==> c.is_file && c.age_secs is Some && c.age_secs->0 >= 600,
        left_behind(c) ==> c.name@.len() >= 19 && c.name@.take(19) == ".zfb-plugin-bundle-"@,
        left_behind(c) ==> c.name@.len() >= 4 && c.name@.skip(c.name@.len() - 4) == ".mjs"@,
{
    reveal_strlit(".zfb-plugin-bundle-");
    reveal_strlit(".mjs");
    let front = ".zfb-plugin-bundle-"@;
    let back = ".mjs"@;
    assert(PLUGIN_BUNDLE_TEMP_PREFIX@ == front);
    assert(PLUGIN_BUNDLE_TEMP_SUFFIX@ == back);
    if c.name@ == front + mid + back {
        let name = c.name@;
        assert(name.take(19) =~= front);
        assert(name.skip(name.len() - 4) =~= back);
    }
}

/// The bundler is started with the entry first, in a fixed way, and with the
/// staged file as its output.
pub proof fn lemma_how_it_is_bundled(bundling: Bundling, action: BundleAction)
    requires
        bundle_acts(bundling, action),
    ensures
        action is Spawn <==> bundling.wait is Spawn,
        action matches BundleAction::Spawn { args } ==> {
            &&& args@.len() == 11
            &&& args@[0]@ == bundling.entry
            &&& args@[1]@ == "--bundle"@
            &&& args@[2]@ == "--format=esm"@
            &&& args@[3]@ == "--platform=node"@
            &&& args@[4]@ == "--target=node22"@
            &&& args@[5]@ == "--packages=external"@
            &&& args@[6]@ == "--sourcemap=inline"@
            &&& args@[7]@ == "--log-level=warning"@
            &&& args@[8]@ == "--color=false"@
            &&& args@[9]@ == "--banner:js="@ + REQUIRE_SHIM_BANNER@
            &&& args@[10]@ == "--outfile="@ + bundling.staged()
        },
        action is Sweep <==> bundling.wait is Sweep,
        action matches BundleAction::Sweep { dir } ==> dir@ == bundling.dir,
        action is Stage <==> bundling.wait is Stage,
        action matches BundleAction::Stage { dir } ==> dir@ == bundling.dir,
        action is Pause <==> bundling.wait is Pause,
        action matches BundleAction::Pause { millis } ==> millis == bundling.wait->millis,
        action is Await <==> bundling.wait is Exit,
        action matches BundleAction::Await { timeout_secs } ==> timeout_secs == 300,
        action is Done <==> bundling.wait is Done,
        action matches BundleAction::Done { staged, url } ==> staged@ == bundling.staged() && url@
            == bundling.wait->url,
{
    if let BundleAction::Spawn { args } = action {
        let list = bundler_args(bundling.entry, bundling.staged());
        assert(texts(args@) == list);
        assert(texts(args@).len() == args@.len());
        assert forall|i: int| 0 <= i < 11 implies #[trigger] args@[i]@ == list[i] by {
            assert(texts(args@)[i] == args@[i]@);
        }
    }
}

/// Every bundle begins with what makes `require` work in it. Where the bundler is
/// not found, what is said names the place where it is looked for; and the
/// message that is replaced by that is the one about evaluating a configuration.
pub proof fn lemma_bundle_texts(slot: Seq<char>)
    ensures
        REQUIRE_SHIM_BANNER@
            == "import { createRequire as __zfbCreateRequire } from \"node:module\"; const require = __zfbCreateRequire(import.meta.url);"@,
        CONFIG_HINT@ == "Evaluating a `zfb.config.ts`"@,
        has_substring(not_found_text(slot), slot),
        has_suffix(
            not_found_text(slot),
            ", or reinstall zfb (packaged builds embed esbuild)."@,
        ),
{
    let front =
        "plugin bundling: esbuild binary not found — bundling a `.ts`/`.tsx`/`.mts`/`.cts` plugin entry needs the pinned esbuild. Set ZFB_ESBUILD_BIN, or stage the workspace binary at "@;
    let back = ", or reinstall zfb (packaged builds embed esbuild)."@;
    lemma_stands_in(front, slot, back);
    let text = not_found_text(slot);
    assert(text =~= front + slot + back);
    assert(text.skip(text.len() - back.len()) =~= back);
}

/// The bundling goes from the sweep to the staged file, to the start and to the
/// end of the bundler, about the same staged file all the time. A busy program is
/// started again up to five times, after ten milliseconds the first time and ten
/// more each further time. Everything else that goes wrong ends it.
pub proof fn lemma_bundling_goes<E>(bundling: Bundling, answer: BundleAnswer<E>)
    requires
        bundle_answers(bundling.wait, answer),
    ensures
        ({
            let next = bundling.after(answer);
            &&& next.entry == bundling.entry
            &&& next.plugin == bundling.plugin
            &&& next.dir == bundling.dir
            &&& next.retries == if next.wait is Pause {
                bundling.retries + 1
            } else {
                bundling.retries
            }
            &&& answer is Swept ==> next.wait is Stage
            &&& answer matches BundleAnswer::Staged(Ok(path)) ==> next.wait is Spawn
                && next.staged() == path@
            &&& answer matches BundleAnswer::Staged(Err(_)) ==> next.wait is Failed
            &&& answer matches BundleAnswer::Spawned(SpawnEnd::Running) ==> next.wait is Exit
                && next.staged() == bundling.staged()
            &&& answer matches BundleAnswer::Spawned(SpawnEnd::Failed(_)) ==> next.wait is Failed
            &&& answer matches BundleAnswer::Spawned(SpawnEnd::Busy(_)) ==> if bundling.retries
                < 5 {
                next.wait is Pause && next.staged() == bundling.staged() && next.wait->millis == 10
                    * bundling.retries + 10
            } else {
                next.wait is Failed
            }
            &&& answer is Paused ==> next.wait is Spawn && next.staged() == bundling.staged()
            &&& answer matches BundleAnswer::Ended(end) ==> match end {
                RunEnd::Exited { success, .. } => if success && bundling.staged().len() > 0
                    && bundling.staged()[0] == '/' {
                    next.wait is Done && next.staged() == bundling.staged()
                } else {
                    next.wait is Failed
                },
                _ => next.wait is Failed,
            }
        }),
{
}

/// Why the bundling failed names what went wrong, with the error that came in.
pub proof fn lemma_bundling_errors<E>(
    bundling: Bundling,
    answer: BundleAnswer<E>,
    error: BundleError<E>,
)
    requires
        bundling.error_after(answer, error),
    ensures
        answer matches BundleAnswer::Staged(Err(e)) ==> error == BundleError::Stage(e),
        answer matches BundleAnswer::Spawned(SpawnEnd::Busy(e)) ==> error == BundleError::Spawn(e),
        answer matches BundleAnswer::Spawned(SpawnEnd::Failed(e)) ==> error
            == BundleError::Spawn(e),
        answer matches BundleAnswer::Ended(RunEnd::Broken(e)) ==> error == BundleError::Run(e),
        answer matches BundleAnswer::Ended(RunEnd::TimedOut) ==> error is TimedOut,
        answer matches BundleAnswer::Ended(RunEnd::Exited { success, stderr }) ==> if success {
            error is NoUrl && error->NoUrl_0@ == bundling.staged()
        } else {
            error is Failed && error->Failed_0 == stderr
        },
{
}

/// The directory in which an entry's bundle is staged is that of the entry: all
/// of the components of the entry's path but the last.
pub proof fn lemma_bundle_is_staged_beside_entry(entry: Seq<char>)
    ensures
        has_parent(entry) <==> parts(entry).len() > 0 && !(parts(entry).last() is Root),
        has_parent(entry) ==> parts(parent_text(entry)) == parts(entry).drop_last(),
{
    lemma_parent_text(entry);
}

/// `inner` stands in `front + inner + back`.
proof fn lemma_stands_in(front: Seq<char>, inner: Seq<char>, back: Seq<char>)
    ensures
        has_substring(front + inner + back, inner),
{
    let all = front + inner + back;
    assert(all.subrange(front.len() as int, front.len() as int + inner.len()) =~= inner);
    assert(occurs_at(all, inner, front.len() as int));
}

/// What is said of a failure names the plugin, or the path that has no URL, and
/// ends with what the outside said where it said something.
pub proof fn lemma_errors_name_the_plugin(
    entry: Seq<char>,
    plugin: Seq<char>,
    dir: Seq<char>,
    error: BundleError<String>,
)
    ensures
        !(error is NoUrl) ==> has_substring(error_text(entry, plugin, dir, error), plugin),
        error is TimedOut || error is Failed || error is NoParent ==> has_substring(
            error_text(entry, plugin, dir, error),
            entry,
        ),
        error matches BundleError::Stage(cause) ==> has_suffix(
            error_text(entry, plugin, dir, error),
            cause@,
        ) && has_substring(error_text(entry, plugin, dir, error), dir),
        error matches BundleError::Failed(stderr) ==> has_suffix(
            error_text(entry, plugin, dir, error),
            stderr@,
        ),
        error matches BundleError::NoUrl(path) ==> has_substring(
            error_text(entry, plugin, dir, error),
            path@,
        ),
{
    let text = error_text(entry, plugin, dir, error);
    let stage = "plugin bundling: failed to stage bundle for plugin `"@;
    match error {
        BundleError::NoParent => {
            let rest = "` in "@ + entry + ": entry path has no parent directory"@;
            assert(text =~= stage + plugin + rest);
            lemma_stands_in(stage, plugin, rest);
            lemma_stands_in(
                stage + plugin + "` in "@,
                entry,
                ": entry path has no parent directory"@,
            );
        },
        BundleError::Stage(cause) => {
            let rest = "` in "@ + dir + ": "@ + cause@;
            assert(text =~= stage + plugin + rest);
            lemma_stands_in(stage, plugin, rest);
            assert(text =~= (stage + plugin + "` in "@) + dir + (": "@ + cause@));
            lemma_stands_in(stage + plugin + "` in "@, dir, ": "@ + cause@);
            assert(text.skip(text.len() - cause@.len()) =~= cause@);
        },
        BundleError::Spawn(_) => {
            lemma_stands_in(
                "plugin bundling: failed to spawn esbuild for plugin `"@,
                plugin,
                "`"@,
            );
        },
        BundleError::Run(_) => {
            lemma_stands_in("plugin bundling: failed to run esbuild for plugin `"@, plugin, "`"@);
        },
        BundleError::TimedOut => {
            let first =
                "plugin bundling: esbuild did not exit within 300s while bundling plugin `"@;
            let rest = "` ("@ + entry + ") — killed"@;
            assert(text =~= first + plugin + rest);
            lemma_stands_in(first, plugin, rest);
            lemma_stands_in(first + plugin + "` ("@, entry, ") — killed"@);
        },
        BundleError::Failed(stderr) => {
            let first = "plugin bundling: esbuild failed for plugin `"@;
            let rest = "` ("@ + entry + "):\n"@ + stderr@;
            assert(text =~= first + plugin + rest);
            lemma_stands_in(first, plugin, rest);
            assert(text =~= (first + plugin + "` ("@) + entry + ("):\n"@ + stderr@));
            lemma_stands_in(first + plugin + "` ("@, entry, "):\n"@ + stderr@);
            assert(text.skip(text.len() - stderr@.len()) =~= stderr@);
        },
        BundleError::NoUrl(path) => {
            lemma_stands_in(
                "plugin bundling: failed to convert staged bundle path "@,
                path@,
                " to a file:// URL"@,
            );
        },
    }
}

} // verus!
