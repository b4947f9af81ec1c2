//! Bundling the entry of a plugin that is written in TypeScript.
//!
//! The bundler itself is another program. It writes a staged file beside the
//! entry, which is swept away later where it was left behind.

use vstd::prelude::*;

use crate::path::{
    absolute, parent, parent_text, part_text, parts, parts_of, Part, PathPart, parts_view,
};
use crate::pipeline::dev::bytes_of;
use crate::plan::texts;
use crate::text::{
    contains, copy_str, ends_with, has_prefix, has_substring, has_suffix, starts_with, to_chars,
};

verus! {

/// How the name of a staged bundle begins.
pub const PLUGIN_BUNDLE_TEMP_PREFIX: &'static str = ".zfb-plugin-bundle-";

/// How the name of a staged bundle ends.
pub const PLUGIN_BUNDLE_TEMP_SUFFIX: &'static str = ".mjs";

/// The age in seconds from which on a staged bundle may have been left behind.
pub const PLUGIN_BUNDLE_TEMP_STALE_AFTER: u64 = 600;

/// How many seconds the bundler may take.
pub const ESBUILD_BUNDLE_TIMEOUT: u64 = 300;

/// How often a start is tried again where the program was busy.
pub const ETXTBSY_MAX_RETRIES: u32 = 5;

/// By how many milliseconds each wait before another start is longer than the
/// one before.
pub const ETXTBSY_RETRY_DELAY: u64 = 10;

/// What every bundle begins with, so that `require` is there.
pub const REQUIRE_SHIM_BANNER: &'static str = "import { createRequire as __zfbCreateRequire } from \"node:module\"; const require = __zfbCreateRequire(import.meta.url);";

/// What only the message about the default place of the bundler holds.
pub const CONFIG_HINT: &'static str = "Evaluating a `zfb.config.ts`";

/// The URL is that of a file that has to be bundled: it ends in one of the
/// extensions of TypeScript.
pub open spec fn to_be_bundled(url: Seq<char>) -> bool {
    ||| has_suffix(url, ".ts"@)
    ||| has_suffix(url, ".tsx"@)
    ||| has_suffix(url, ".mts"@)
    ||| has_suffix(url, ".cts"@)
}

/// Whether the file has to be bundled: its URL ends in `.ts`, `.tsx`, `.mts` or
/// `.cts`, in lower case.
pub fn needs_bundling(module_file_url: &str) -> (r: bool)
    ensures
        r == to_be_bundled(module_file_url@),
{
    let url = to_chars(module_file_url);
    ends_with(&url, &to_chars(".ts")) || ends_with(&url, &to_chars(".tsx")) || ends_with(
        &url,
        &to_chars(".mts"),
    ) || ends_with(&url, &to_chars(".cts"))
}

/// What is said where the bundler is not found.
pub open spec fn not_found_text(default_slot: Seq<char>) -> Seq<char> {
    "plugin bundling: esbuild binary not found — bundling a `.ts`/`.tsx`/`.mts`/`.cts` plugin entry needs the pinned esbuild. Set ZFB_ESBUILD_BIN, or stage the workspace binary at "@
        + default_slot + ", or reinstall zfb (packaged builds embed esbuild)."@
}

/// The message to show where the bundler is not found. The one about its default
/// place is replaced by one that speaks of plugins; any other stays.
pub fn remap_default_slot_not_found(message: String, default_slot: &str) -> (r: String)
    ensures
        r@ == (if has_substring(message@, CONFIG_HINT@) {
            not_found_text(default_slot@)
        } else {
            message@
        }),
{
    let chars = to_chars(message.as_str());
    let hint = to_chars(CONFIG_HINT);
    if contains(&chars, &hint) {
        let mut out: String = copy_str(
            "plugin bundling: esbuild binary not found — bundling a `.ts`/`.tsx`/`.mts`/`.cts` plugin entry needs the pinned esbuild. Set ZFB_ESBUILD_BIN, or stage the workspace binary at ",
        );
        out.append(default_slot);
        out.append(", or reinstall zfb (packaged builds embed esbuild).");
        out
    } else {
        message
    }
}

/// The name is that of a staged bundle.
pub open spec fn staged_name(name: Seq<char>) -> bool {
    has_prefix(name, PLUGIN_BUNDLE_TEMP_PREFIX@) && has_suffix(name, PLUGIN_BUNDLE_TEMP_SUFFIX@)
}

/// What a sweep knows of a file before it opens it.
#[derive(Debug)]
pub struct SweepCandidate {
    /// Its name.
    pub name: String,
    /// Whether it is a file at all.
    pub is_file: bool,
    /// How many whole seconds ago it was changed; nothing where that is not
    /// known, or was not in the past.
    pub age_secs: Option<u64>,
}

/// The file may have been left behind: it is named like a staged bundle and old
/// enough.
pub open spec fn left_behind(c: SweepCandidate) -> bool {
    staged_name(c.name@) && c.is_file && match c.age_secs {
        Some(age) => age >= PLUGIN_BUNDLE_TEMP_STALE_AFTER,
        None => false,
    }
}

/// Whether a sweep opens the file and tries to lock it.
pub fn sweep_considers(c: &SweepCandidate) -> (r: bool)
    ensures
        r == left_behind(*c),
{
    let name = to_chars(c.name.as_str());
    let prefix = to_chars(PLUGIN_BUNDLE_TEMP_PREFIX);
    let suffix = to_chars(PLUGIN_BUNDLE_TEMP_SUFFIX);
    starts_with(&name, &prefix) && ends_with(&name, &suffix) && c.is_file && match c.age_secs {
        Some(age) => age >= PLUGIN_BUNDLE_TEMP_STALE_AFTER,
        None => false,
    }
}

/// Whether a sweep deletes the file. `locked` is whether it could be opened and
/// locked for this sweep alone.
pub fn sweep_removes(c: &SweepCandidate, locked: bool) -> (r: bool)
    ensures
        r == (left_behind(*c) && locked),
{
    sweep_considers(c) && locked
}

/// No file is swept away that the bundler may still be writing, and none that is
/// not named like a staged bundle.
pub proof fn lemma_sweep_spares(c: SweepCandidate)
    ensures
        c.age_secs matches Some(age) && age <= ESBUILD_BUNDLE_TIMEOUT ==> !left_behind(c),
        !staged_name(c.name@) ==> !left_behind(c),
{
}

/// The byte is written as a percent sign and two digits in a URL's path.
pub open spec fn escaped(b: u8) -> bool {
    b <= 0x20 || b >= 0x7f || b == 0x22 || b == 0x23 || b == 0x25 || b == 0x2f || b == 0x3c || b
        == 0x3e || b == 0x3f || b == 0x5c || b == 0x60 || b == 0x7b || b == 0x7d
}

/// The upper-case hexadecimal digit of a value below sixteen.
pub open spec fn upper_hex_digit(value: int) -> char {
    if value < 10 {
        (48 + value) as char
    } else {
        (55 + value) as char
    }
}

/// The bytes as they stand in a URL's path.
pub open spec fn percent_encoded(bytes: Seq<u8>) -> Seq<char>
    decreases bytes.len(),
{
    if bytes.len() == 0 {
        Seq::empty()
    } else {
        let b = bytes.last();
        percent_encoded(bytes.drop_last()) + if escaped(b) {
            seq!['%', upper_hex_digit(b as int / 16), upper_hex_digit(b as int % 16)]
        } else {
            seq![b as char]
        }
    }
}

/// The components as they stand in a URL, with a slash before each.
pub open spec fn url_segments(list: Seq<Part>) -> Seq<char>
    decreases list.len(),
{
    if list.len() == 0 {
        Seq::empty()
    } else {
        url_segments(list.drop_last()).push('/') + percent_encoded(
            bytes_of(part_text(list.last())),
        )
    }
}

/// The `file` URL of an absolute path.
pub open spec fn file_url_text(path: Seq<char>) -> Seq<char> {
    "file://"@ + if parts(path).len() <= 1 {
        seq!['/']
    } else {
        url_segments(parts(path).drop_first())
    }
}

/// `url::Url::from_file_path`, on a Unix system: an absolute path gives `file://`
/// and its components below the root, each with a slash before it and
/// percent-encoded (a single slash where there are none); any other path gives
/// nothing.
#[verifier::external_body]
fn url_from_file_path(path: &str) -> (r: Option<String>)
    ensures
        match r {
            Some(url) => absolute(path@) && url@ == file_url_text(path@),
            None => !absolute(path@),
        },
{
    url::Url::from_file_path(path).ok().map(String::from)
}

/// Where the bundling of an entry stands.
pub enum BundlingWait {
    /// The sweep of the directory.
    Sweep,
    /// The staged file.
    Stage,
    /// The start of the bundler.
    Spawn { staged: Seq<char> },
    /// The pause before another start.
    Pause { staged: Seq<char>, millis: nat },
    /// The end of the bundler.
    Exit { staged: Seq<char> },
    /// Nothing: the bundle is there.
    Done { staged: Seq<char>, url: Seq<char> },
    /// Nothing: it failed.
    Failed,
}

/// The bundling of an entry.
pub struct Bundling {
    pub entry: Seq<char>,
    pub plugin: Seq<char>,
    /// The directory of the entry.
    pub dir: Seq<char>,
    /// How often the start was tried again.
    pub retries: nat,
    pub wait: BundlingWait,
}

/// How a start of the bundler went.
#[derive(Debug)]
pub enum SpawnEnd<E> {
    /// It runs.
    Running,
    /// The program was busy.
    Busy(E),
    /// It could not be started.
    Failed(E),
}

/// How the bundler ended.
#[derive(Debug)]
pub enum RunEnd<E> {
    /// It exited.
    Exited { success: bool, stderr: String },
    /// It could not be waited for.
    Broken(E),
    /// It took too long and was stopped.
    TimedOut,
}

/// What came of what the bundling waited for. `E` is whatever the outside
/// reports as an error.
#[derive(Debug)]
pub enum BundleAnswer<E> {
    /// The directory has been swept, as far as it could be.
    Swept,
    /// The path of the staged file.
    Staged(Result<String, E>),
    /// How the start went.
    Spawned(SpawnEnd<E>),
    /// The pause is over.
    Paused,
    /// How the bundler ended.
    Ended(RunEnd<E>),
}

/// Why an entry was not bundled.
#[derive(Debug)]
pub enum BundleError<E> {
    /// The entry is in no directory.
    NoParent,
    /// There is no staged file.
    Stage(E),
    /// The bundler could not be started.
    Spawn(E),
    /// The bundler could not be waited for.
    Run(E),
    /// The bundler took too long.
    TimedOut,
    /// The bundler failed, and said this.
    Failed(String),
    /// The path of the staged file has no URL.
    NoUrl(String),
}

/// The answer is one to what the bundling waits for.
pub open spec fn bundle_answers<E>(wait: BundlingWait, answer: BundleAnswer<E>) -> bool {
    match wait {
        BundlingWait::Sweep => answer is Swept,
        BundlingWait::Stage => answer is Staged,
        BundlingWait::Spawn { .. } => answer is Spawned,
        BundlingWait::Pause { .. } => answer is Paused,
        BundlingWait::Exit { .. } => answer is Ended,
        _ => false,
    }
}

impl Bundling {
    pub open spec fn at(self, wait: BundlingWait) -> Bundling {
        Bundling { wait, ..self }
    }

    /// The staged file that it is about.
    pub open spec fn staged(self) -> Seq<char> {
        match self.wait {
            BundlingWait::Spawn { staged } => staged,
            BundlingWait::Pause { staged, .. } => staged,
            BundlingWait::Exit { staged } => staged,
            BundlingWait::Done { staged, .. } => staged,
            _ => Seq::empty(),
        }
    }

    /// Where the bundling stands after an answer. A busy program is started
    /// again after a pause, a few times, each pause longer than the one before.
    pub open spec fn after<E>(self, answer: BundleAnswer<E>) -> Bundling {
        let staged = self.staged();
        match answer {
            BundleAnswer::Swept => self.at(BundlingWait::Stage),
            BundleAnswer::Staged(Ok(path)) => self.at(BundlingWait::Spawn { staged: path@ }),
            BundleAnswer::Spawned(SpawnEnd::Running) => self.at(BundlingWait::Exit { staged }),
            BundleAnswer::Spawned(SpawnEnd::Busy(_)) => if self.retries < ETXTBSY_MAX_RETRIES {
                Bundling {
                    retries: self.retries + 1,
                    wait: BundlingWait::Pause {
                        staged,
                        millis: ETXTBSY_RETRY_DELAY as nat * (self.retries + 1),
                    },
                    ..self
                }
            } else {
                self.at(BundlingWait::Failed)
            },
            BundleAnswer::Paused => self.at(BundlingWait::Spawn { staged }),
            BundleAnswer::Ended(RunEnd::Exited { success, stderr }) => if success && absolute(
                staged,
            ) {
                self.at(BundlingWait::Done { staged, url: file_url_text(staged) })
            } else {
                self.at(BundlingWait::Failed)
            },
            _ => self.at(BundlingWait::Failed),
        }
    }

    /// Why the bundling has failed with the answer.
    pub open spec fn error_after<E>(self, answer: BundleAnswer<E>, error: BundleError<E>) -> bool {
        match answer {
            BundleAnswer::Staged(Err(e)) => error == BundleError::Stage(e),
            BundleAnswer::Spawned(SpawnEnd::Busy(e)) => error == BundleError::Spawn(e),
            BundleAnswer::Spawned(SpawnEnd::Failed(e)) => error == BundleError::Spawn(e),
            BundleAnswer::Ended(RunEnd::Broken(e)) => error == BundleError::Run(e),
            BundleAnswer::Ended(RunEnd::TimedOut) => error is TimedOut,
            BundleAnswer::Ended(RunEnd::Exited { success, stderr }) => if success {
                error matches BundleError::NoUrl(path) && path@ == self.staged()
            } else {
                error == BundleError::<E>::Failed(stderr)
            },
            _ => false,
        }
    }
}

#[derive(Debug)]
enum Step {
    Sweep,
    Stage,
    Spawn { staged: String },
    Pause { staged: String, millis: u64 },
    Exit { staged: String },
    Done { staged: String, url: String },
    Failed,
}

impl Step {
    spec fn stands_for(&self) -> BundlingWait {
        match self {
            Step::Sweep => BundlingWait::Sweep,
            Step::Stage => BundlingWait::Stage,
            Step::Spawn { staged } => BundlingWait::Spawn { staged: staged@ },
            Step::Pause { staged, millis } => BundlingWait::Pause {
                staged: staged@,
                millis: *millis as nat,
            },
            Step::Exit { staged } => BundlingWait::Exit { staged: staged@ },
            Step::Done { staged, url } => BundlingWait::Done { staged: staged@, url: url@ },
            Step::Failed => BundlingWait::Failed,
        }
    }
}

/// The bundling of one entry.
#[derive(Debug)]
pub struct PluginBundling {
    entry: String,
    plugin: String,
    dir: String,
    retries: u32,
    step: Step,
}

impl View for PluginBundling {
    type V = Bundling;

    closed spec fn view(&self) -> Bundling {
        Bundling {
            entry: self.entry@,
            plugin: self.plugin@,
            dir: self.dir@,
            retries: self.retries as nat,
            wait: self.step.stands_for(),
        }
    }
}

/// What is to be done next.
#[derive(Debug)]
pub enum BundleAction {
    /// Sweep away what was left behind in this directory.
    Sweep { dir: String },
    /// Make a staged file in this directory, and hold it.
    Stage { dir: String },
    /// Start the bundler with these arguments.
    Spawn { args: Vec<String> },
    /// Wait for so many milliseconds.
    Pause { millis: u64 },
    /// Wait for the bundler to end, for so many seconds at most.
    Await { timeout_secs: u64 },
    /// Nothing: the bundle is at this path and has this URL. Hold it.
    Done { staged: String, url: String },
    /// Nothing: it failed.
    Failed,
}

/// The arguments of the bundler.
pub open spec fn bundler_args(entry: Seq<char>, staged: Seq<char>) -> Seq<Seq<char>> {
    seq![
        entry,
        "--bundle"@,
        "--format=esm"@,
        "--platform=node"@,
        "--target=node22"@,
        "--packages=external"@,
        "--sourcemap=inline"@,
        "--log-level=warning"@,
        "--color=false"@,
        "--banner:js="@ + REQUIRE_SHIM_BANNER@,
        "--outfile="@ + staged,
    ]
}

/// The action is the one that the bundling waits for.
pub open spec fn bundle_acts(bundling: Bundling, action: BundleAction) -> bool {
    match bundling.wait {
        BundlingWait::Sweep => action matches BundleAction::Sweep { dir } && dir@ == bundling.dir,
        BundlingWait::Stage => action matches BundleAction::Stage { dir } && dir@ == bundling.dir,
        BundlingWait::Spawn { staged } => action matches BundleAction::Spawn { args } && texts(
            args@,
        ) == bundler_args(bundling.entry, staged),
        BundlingWait::Pause { staged, millis } => action matches BundleAction::Pause { millis: m }
            && m == millis,
        BundlingWait::Exit { staged } => action == (BundleAction::Await {
            timeout_secs: ESBUILD_BUNDLE_TIMEOUT,
        }),
        BundlingWait::Done { staged, url } => action matches BundleAction::Done { staged: s, url: u }
            && s@ == staged && u@ == url,
        BundlingWait::Failed => action is Failed,
    }
}

fn esbuild_args(entry: &str, staged: &str) -> (r: Vec<String>)
    ensures
        texts(r@) == bundler_args(entry@, staged@),
{
    let mut banner: String = copy_str("--banner:js=");
    banner.append(REQUIRE_SHIM_BANNER);
    let mut outfile: String = copy_str("--outfile=");
    outfile.append(staged);
    let out: Vec<String> =
        vec![
        copy_str(entry),
        copy_str("--bundle"),
        copy_str("--format=esm"),
        copy_str("--platform=node"),
        copy_str("--target=node22"),
        copy_str("--packages=external"),
        copy_str("--sourcemap=inline"),
        copy_str("--log-level=warning"),
        copy_str("--color=false"),
        banner,
        outfile,
    ];
    assert(texts(out@) =~= bundler_args(entry@, staged@));
    out
}

/// Whether a path is in a directory.
pub open spec fn has_parent(path: Seq<char>) -> bool {
    parts(path).len() > 0 && parts(path).last() != Part::Root
}

fn is_in_directory(path: &str) -> (r: bool)
    ensures
        r == has_parent(path@),
{
    let mut list = parts_of(path);
    let ghost all = list@;
    assert(parts_view(all).len() == all.len());
    match list.pop() {
        Some(PathPart::Root) => {
            assert(parts_view(all).last() == all.last()@);
            false
        },
        Some(_) => {
            assert(parts_view(all).last() == all.last()@);
            true
        },
        None => false,
    }
}

/// Begins to bundle the entry. It has to be in a directory, since the bundle is
/// staged beside it.
pub fn bundle_plugin_entry(entry: &str, plugin_name: &str) -> (r: Option<PluginBundling>)
    ensures
        match r {
            Some(bundling) => has_parent(entry@) && bundling@ == (Bundling {
                entry: entry@,
                plugin: plugin_name@,
                dir: parent_text(entry@),
                retries: 0,
                wait: BundlingWait::Sweep,
            }),
            None => !has_parent(entry@),
        },
{
    if is_in_directory(entry) {
        Some(
            PluginBundling {
                entry: copy_str(entry),
                plugin: copy_str(plugin_name),
                dir: parent(entry),
                retries: 0,
                step: Step::Sweep,
            },
        )
    } else {
        None
    }
}

impl PluginBundling {
    /// What is to be done next.
    pub fn action(&self) -> (r: BundleAction)
        ensures
            bundle_acts(self@, r),
    {
        match &self.step {
            Step::Sweep => BundleAction::Sweep { dir: self.dir.clone() },
            Step::Stage => BundleAction::Stage { dir: self.dir.clone() },
            Step::Spawn { staged } => BundleAction::Spawn {
                args: esbuild_args(self.entry.as_str(), staged.as_str()),
            },
            Step::Pause { staged, millis } => BundleAction::Pause { millis: *millis },
            Step::Exit { staged } => BundleAction::Await { timeout_secs: ESBUILD_BUNDLE_TIMEOUT },
            Step::Done { staged, url } => BundleAction::Done {
                staged: staged.clone(),
                url: url.clone(),
            },
            Step::Failed => BundleAction::Failed,
        }
    }

    fn take_staged(&mut self) -> (r: String)
        ensures
            r@ == old(self)@.staged(),
            final(self)@ == old(self)@.at(BundlingWait::Failed),
    {
        let mut step = Step::Failed;
        std::mem::swap(&mut step, &mut self.step);
        match step {
            Step::Spawn { staged } => staged,
            Step::Pause { staged, .. } => staged,
            Step::Exit { staged } => staged,
            Step::Done { staged, .. } => staged,
            _ => {
                let none: String = String::new();
                assert(none@ =~= Seq::empty());
                none
            },
        }
    }

    fn on_spawned<E>(&mut self, end: SpawnEnd<E>) -> (r: Option<E>)
        requires
            old(self)@.wait is Spawn,
        ensures
            final(self)@ == old(self)@.after(BundleAnswer::Spawned(end)),
            match r {
                Some(e) => final(self)@.wait is Failed && old(self)@.error_after(
                    BundleAnswer::Spawned(end),
                    BundleError::Spawn(e),
                ),
                None => !(final(self)@.wait is Failed),
            },
    {
        let staged = self.take_staged();
        match end {
            SpawnEnd::Running => {
                self.step = Step::Exit { staged };
                None
            },
            SpawnEnd::Busy(e) => {
                if self.retries < ETXTBSY_MAX_RETRIES {
                    self.retries = self.retries + 1;
                    let millis: u64 = ETXTBSY_RETRY_DELAY * (self.retries as u64);
                    self.step = Step::Pause { staged, millis };
                    None
                } else {
                    Some(e)
                }
            },
            SpawnEnd::Failed(e) => Some(e),
        }
    }

    fn on_ended<E>(&mut self, end: RunEnd<E>) -> (r: Option<BundleError<E>>)
        requires
            old(self)@.wait is Exit,
        ensures
            final(self)@ == old(self)@.after(BundleAnswer::Ended(end)),
            match r {
                Some(e) => final(self)@.wait is Failed && old(self)@.error_after(
                    BundleAnswer::Ended(end),
                    e,
                ),
                None => !(final(self)@.wait is Failed),
            },
    {
        let staged = self.take_staged();
        match end {
            RunEnd::Exited { success, stderr } => {
                if !success {
                    return Some(BundleError::Failed(stderr));
                }
                match url_from_file_path(staged.as_str()) {
                    Some(url) => {
                        self.step = Step::Done { staged, url };
                        None
                    },
                    None => Some(BundleError::NoUrl(staged)),
                }
            },
            RunEnd::Broken(e) => Some(BundleError::Run(e)),
            RunEnd::TimedOut => Some(BundleError::TimedOut),
        }
    }

    /// Takes the answer to what the bundling waited for.
    pub fn resume<E>(&mut self, answer: BundleAnswer<E>) -> (r: Result<(), BundleError<E>>)
        requires
            bundle_answers(old(self)@.wait, answer),
        ensures
            final(self)@ == old(self)@.after(answer),
            match r {
                Ok(_) => !(final(self)@.wait is Failed),
                Err(e) => final(self)@.wait is Failed && old(self)@.error_after(answer, e),
            },
    {
        match answer {
            BundleAnswer::Swept => {
                self.step = Step::Stage;
            },
            BundleAnswer::Staged(Ok(path)) => {
                self.step = Step::Spawn { staged: path };
            },
            BundleAnswer::Staged(Err(e)) => {
                self.step = Step::Failed;
                return Err(BundleError::Stage(e));
            },
            BundleAnswer::Spawned(end) => {
                if let Some(e) = self.on_spawned(end) {
                    return Err(BundleError::Spawn(e));
                }
            },
            BundleAnswer::Paused => {
                let staged = self.take_staged();
                self.step = Step::Spawn { staged };
            },
            BundleAnswer::Ended(end) => {
                if let Some(e) = self.on_ended(end) {
                    return Err(e);
                }
            },
        }
        Ok(())
    }
}

/// What is said where an entry was not bundled. The error of a start, or of a
/// wait, is the cause of what is said, and no part of it.
pub open spec fn error_text(
    entry: Seq<char>,
    plugin: Seq<char>,
    dir: Seq<char>,
    error: BundleError<String>,
) -> Seq<char> {
    let stage = "plugin bundling: failed to stage bundle for plugin `"@ + plugin + "` in "@;
    match error {
        BundleError::NoParent => stage + entry + ": entry path has no parent directory"@,
        BundleError::Stage(cause) => stage + dir + ": "@ + cause@,
        BundleError::Spawn(_) => "plugin bundling: failed to spawn esbuild for plugin `"@ + plugin
            + "`"@,
        BundleError::Run(_) => "plugin bundling: failed to run esbuild for plugin `"@ + plugin
            + "`"@,
        BundleError::TimedOut =>
            "plugin bundling: esbuild did not exit within 300s while bundling plugin `"@ + plugin
            + "` ("@ + entry + ") — killed"@,
        BundleError::Failed(stderr) => "plugin bundling: esbuild failed for plugin `"@ + plugin
            + "` ("@ + entry + "):\n"@ + stderr@,
        BundleError::NoUrl(path) => "plugin bundling: failed to convert staged bundle path "@
            + path@ + " to a file:// URL"@,
    }
}

fn glued(list: &Vec<&str>) -> (r: String)
    ensures
        r@ == glue(list@),
{
    let mut out: String = String::new();
    let mut i: usize = 0;
    assert(list@.take(0) =~= Seq::empty());
    while i < list.len()
        invariant
            i <= list@.len(),
            out@ == glue(list@.take(i as int)),
        decreases list@.len() - i,
    {
        assert(list@.take(i as int + 1).drop_last() =~= list@.take(i as int));
        out.append(list[i]);
        i = i + 1;
    }
    assert(list@.take(i as int) =~= list@);
    out
}

spec fn glue(list: Seq<&str>) -> Seq<char>
    decreases list.len(),
{
    if list.len() == 0 {
        Seq::empty()
    } else {
        glue(list.drop_last()) + list.last()@
    }
}

/// What to say where an entry was not bundled.
pub fn bundle_error_text(
    entry: &str,
    plugin: &str,
    dir: &str,
    error: &BundleError<String>,
) -> (r: String)
    ensures
        r@ == error_text(entry@, plugin@, dir@, *error),
{
    let stage = "plugin bundling: failed to stage bundle for plugin `";
    let list: Vec<&str> = match error {
        BundleError::NoParent => vec![
            stage,
            plugin,
            "` in ",
            entry,
            ": entry path has no parent directory",
            "",
        ],
        BundleError::Stage(cause) => vec![stage, plugin, "` in ", dir, ": ", cause.as_str()],
        BundleError::Spawn(_) => vec![
            "plugin bundling: failed to spawn esbuild for plugin `",
            plugin,
            "`",
            "",
            "",
            "",
        ],
        BundleError::Run(_) => vec![
            "plugin bundling: failed to run esbuild for plugin `",
            plugin,
            "`",
            "",
            "",
            "",
        ],
        BundleError::TimedOut => vec![
            "plugin bundling: esbuild did not exit within 300s while bundling plugin `",
            plugin,
            "` (",
            entry,
            ") — killed",
            "",
        ],
        BundleError::Failed(stderr) => vec![
            "plugin bundling: esbuild failed for plugin `",
            plugin,
            "` (",
            entry,
            "):\n",
            stderr.as_str(),
        ],
        BundleError::NoUrl(path) => vec![
            "plugin bundling: failed to convert staged bundle path ",
            path.as_str(),
            " to a file:// URL",
            "",
            "",
            "",
        ],
    };
    proof {
        reveal_strlit("");
        reveal_with_fuel(glue, 7);
        let l = list@;
        assert(l.len() == 6);
        assert(glue(l) =~= l[0]@ + l[1]@ + l[2]@ + l[3]@ + l[4]@ + l[5]@);
        assert(glue(l) =~= error_text(entry@, plugin@, dir@, *error));
    }
    glued(&list)
}

/// A staged bundle. `Guard` is whatever deletes the file when it is dropped.
#[derive(Debug)]
pub struct StagedPluginBundle<Guard> {
    staged: Guard,
    path: String,
    file_url: String,
}

impl<Guard> StagedPluginBundle<Guard> {
    /// Where the bundle is.
    pub closed spec fn at_path(&self) -> Seq<char> {
        self.path@
    }

    /// Its URL.
    pub closed spec fn has_url(&self) -> Seq<char> {
        self.file_url@
    }

    /// What deletes it.
    pub closed spec fn guarded_by(&self) -> Guard {
        self.staged
    }

    /// The bundle at this path.
    pub fn new(staged: Guard, path: String, file_url: String) -> (r: StagedPluginBundle<Guard>)
        ensures
            r.guarded_by() == staged,
            r.at_path() == path@,
            r.has_url() == file_url@,
    {
        StagedPluginBundle { staged, path, file_url }
    }

    /// The URL of the bundle.
    pub fn file_url(&self) -> (r: &str)
        ensures
            r@ == self.has_url(),
    {
        self.file_url.as_str()
    }

    /// The path of the bundle.
    pub fn path(&self) -> (r: &str)
        ensures
            r@ == self.at_path(),
    {
        self.path.as_str()
    }

    /// What deletes the bundle when it is dropped.
    pub fn guard(&self) -> (r: &Guard)
        ensures
            *r == self.guarded_by(),
    {
        &self.staged
    }
}

/// How far the bundling has come, and how much of that is left.
pub open spec fn progress(wait: BundlingWait, retries: nat) -> (nat, int) {
    match wait {
        BundlingWait::Sweep => (0, 0),
        BundlingWait::Stage => (1, 0),
        BundlingWait::Spawn { .. } => (2, 2 * (ETXTBSY_MAX_RETRIES - retries) + 1),
        BundlingWait::Pause { .. } => (2, 2 * (ETXTBSY_MAX_RETRIES - retries) + 2),
        BundlingWait::Exit { .. } => (3, 0),
        BundlingWait::Done { .. } => (4, 0),
        BundlingWait::Failed => (4, 0),
    }
}

/// The bundling always goes on: it comes further, or less is left of how far it
/// is. So a busy program is started again a bounded number of times, and only a
/// busy one is.
pub proof fn lemma_bundling_ends<E>(bundling: Bundling, answer: BundleAnswer<E>)
    requires
        bundling.retries <= ETXTBSY_MAX_RETRIES,
        bundle_answers(bundling.wait, answer),
    ensures
        ({
            let next = bundling.after(answer);
            let (stage, left) = progress(bundling.wait, bundling.retries);
            let (next_stage, next_left) = progress(next.wait, next.retries);
            &&& next.retries <= ETXTBSY_MAX_RETRIES
            &&& next_stage > stage || next_stage == stage && 0 <= next_left < left
            &&& next.wait is Pause ==> answer is Spawned && answer->Spawned_0 is Busy
            &&& answer is Spawned && answer->Spawned_0 is Failed ==> next.wait is Failed
        }),
{
}

/// The URL of a bundle is one of a file.
pub proof fn lemma_bundle_url<E>(bundling: Bundling, answer: BundleAnswer<E>)
    requires
        bundle_answers(bundling.wait, answer),
        bundling.after(answer).wait is Done,
    ensures
        has_prefix(bundling.after(answer).wait->url, "file://"@),
        bundling.after(answer).wait->url == file_url_text(bundling.staged()),
{
    let url = bundling.after(answer).wait->url;
    assert(url.take("file://"@.len() as int) =~= "file://"@);
}

} // verus!
