use std::collections::BTreeMap;

use zfb_build::page::{PageId, PageSet};
use zfb_build::path::RelDistPath;
use zfb_build::pipeline::asset::{
    insert_hash_before_extension, is_flat_name, path_to_url, CompanionFile, EmittedAsset,
};
use zfb_build::pipeline::hash::{sha256_8, shorten};
use zfb_build::pipeline::orchestrator::{
    apply_prod_asset_pipeline, rendered_from_disk, synthesize_page_id_from_output,
    AssetEmitterPayload, DuplicatePages, ProdAssetEmitterInputs, ProdRenderedFile,
};
use zfb_build::pipeline::prod::{
    AssetEmitter, ProdAction, ProdAnswer, ProdError, ProdRun, ProductionAssetPipeline,
    ProductionEmitters, Slot,
};
use zfb_build::pipeline::{AssetKind, BuildMode, BuildOutcome, RenderedPage};
use zfb_build::plan::{PageSelection, RebuildPlan};

type Files = BTreeMap<String, Vec<u8>>;

struct Fixed(Result<Option<(Vec<u8>, String, Option<String>, Vec<(String, Vec<u8>)>)>, String>);

impl AssetEmitter for Fixed {
    type Error = String;

    fn emit(&self) -> Result<Option<EmittedAsset>, String> {
        self.0.clone().map(|a| {
            a.map(|(bytes, relative_path, stable_url, companions)| EmittedAsset {
                bytes,
                relative_path,
                stable_url,
                companions: companions
                    .into_iter()
                    .map(|(filename, bytes)| CompanionFile { filename, bytes })
                    .collect(),
            })
        })
    }
}

fn asset(bytes: &[u8], path: &str, url: Option<&str>, companions: &[(&str, &[u8])]) -> Fixed {
    Fixed(Ok(Some((
        bytes.to_vec(),
        path.to_string(),
        url.map(str::to_string),
        companions
            .iter()
            .map(|(n, b)| (n.to_string(), b.to_vec()))
            .collect(),
    ))))
}

fn pid(s: &str) -> PageId {
    PageId::new(s.to_string())
}

fn page(html: &str, output: &str) -> RenderedPage {
    RenderedPage {
        page: pid(&format!("/p{output}")),
        output_path: RelDistPath::new(output.trim_start_matches('/')).unwrap(),
        html: html.to_string(),
        content_type: None,
    }
}

fn plan_full(pages: &[&str]) -> RebuildPlan {
    let mut set = PageSet::new();
    for p in pages {
        set.insert(pid(p));
    }
    let mut plan = RebuildPlan::empty();
    plan.pages = PageSelection::Specific(set);
    plan.rerun_css = true;
    plan.rerun_islands = true;
    plan.rerun_client_scripts = true;
    plan
}

fn emitters(css: Option<Fixed>, islands: Option<Fixed>) -> ProductionEmitters<Fixed> {
    ProductionEmitters {
        css,
        islands,
        client_scripts: Vec::new(),
    }
}

fn emit<T: AssetEmitter>(
    emitters: &ProductionEmitters<T>,
    slot: Slot,
) -> Result<Option<EmittedAsset>, T::Error> {
    match slot {
        Slot::Css => emitters.css.as_ref().unwrap().emit(),
        Slot::Islands => emitters.islands.as_ref().unwrap().emit(),
        Slot::Script(k) => emitters.client_scripts[k].emit(),
    }
}

fn drive<T: AssetEmitter>(
    pipeline: &ProductionAssetPipeline<T>,
    mut run: ProdRun,
    mut rendered: Vec<RenderedPage>,
    files: &mut Files,
    broken: bool,
) -> Result<BuildOutcome, ProdError<String>>
where
    T::Error: std::fmt::Debug,
{
    loop {
        let answer = match run.action() {
            ProdAction::Render { .. } => ProdAnswer::Rendered(Ok(std::mem::take(&mut rendered))),
            ProdAction::Emit(slot) => {
                ProdAnswer::Emitted(emit(pipeline.emitters(), slot).map_err(|e| format!("{e:?}")))
            }
            ProdAction::WriteAsset { path, bytes }
            | ProdAction::WriteCompanion { path, bytes }
            | ProdAction::WritePage { path, bytes, .. } => {
                if broken {
                    ProdAnswer::Written(Err("disk full".to_string()))
                } else {
                    files.insert(path, bytes);
                    ProdAnswer::Written(Ok(()))
                }
            }
            ProdAction::Finish => return Ok(run.into_outcome()),
        };
        run.resume(answer)?;
    }
}

fn apply(
    pipeline: &ProductionAssetPipeline<Fixed>,
    plan: &RebuildPlan,
    rendered: Vec<RenderedPage>,
    files: &mut Files,
) -> Result<BuildOutcome, ProdError<String>> {
    let run = pipeline.apply(plan).expect("the plan names its pages");
    drive(pipeline, run, rendered, files, false)
}

fn text(files: &Files, path: &str) -> String {
    String::from_utf8(files[path].clone()).unwrap()
}

#[test]
fn prod_pipeline_hashes_css_and_rewrites_html() {
    let pipeline = ProductionAssetPipeline::new(emitters(
        Some(asset(
            b".btn{color:red}",
            "assets/styles.css",
            Some("/assets/styles.css"),
            &[],
        )),
        None,
    ));
    let mut files = Files::new();
    let outcome = apply(
        &pipeline,
        &plan_full(&["//index.html"]),
        vec![page(
            "<html><head><link rel=\"stylesheet\" href=\"/assets/styles.css\"></head><body/></html>",
            "/index.html",
        )],
        &mut files,
    )
    .unwrap();
    assert_eq!(outcome.hashed_asset_urls.len(), 1);
    let (kind, url) = &outcome.hashed_asset_urls[0];
    assert_eq!(*kind, AssetKind::Css);
    assert!(
        url.starts_with("/assets/styles-")
            && url.ends_with(".css")
            && url.len() == "/assets/styles-12345678.css".len()
    );
    let assets: Vec<&String> = files.keys().filter(|k| k.starts_with("assets/")).collect();
    assert_eq!(assets.len(), 1);
    assert_eq!(format!("/{}", assets[0]), *url);
    let html = text(&files, "index.html");
    assert!(!html.contains("/assets/styles.css\""));
    assert!(html.contains(url.as_str()));
    assert!(outcome.css_changed && !outcome.islands_changed);
    assert_eq!(outcome.pages_rendered, 1);
    assert_eq!(outcome.pages_written[0].path(), "/p/index.html");
}

fn css_url(bytes: &[u8]) -> String {
    let pipeline = ProductionAssetPipeline::new(emitters(
        Some(asset(
            bytes,
            "assets/styles.css",
            Some("/assets/styles.css"),
            &[],
        )),
        None,
    ));
    let outcome = apply(&pipeline, &plan_full(&[]), vec![], &mut Files::new()).unwrap();
    outcome.hashed_asset_urls[0].1.clone()
}

#[test]
fn prod_pipeline_hash_is_byte_stable_and_change_sensitive() {
    let url_a = css_url(b".x{color:red}");
    assert_eq!(url_a, css_url(b".x{color:red}"));
    assert_ne!(url_a, css_url(b".x{color:blue}"));
}

#[test]
fn prod_pipeline_hashes_both_css_and_islands() {
    let pipeline = ProductionAssetPipeline::new(emitters(
        Some(asset(
            b"/* css */",
            "assets/styles.css",
            Some("/assets/styles.css"),
            &[],
        )),
        Some(asset(
            b"// islands",
            "assets/islands.js",
            Some("/assets/islands.js"),
            &[],
        )),
    ));
    let html = "<html><head><link rel=\"stylesheet\" href=\"/assets/styles.css\"><script type=\"module\" src=\"/assets/islands.js\"></script></head><body/></html>";
    let mut files = Files::new();
    let outcome = apply(
        &pipeline,
        &plan_full(&["//index.html"]),
        vec![page(html, "/index.html")],
        &mut files,
    )
    .unwrap();
    let kinds: Vec<AssetKind> = outcome.hashed_asset_urls.iter().map(|(k, _)| *k).collect();
    assert_eq!(kinds, vec![AssetKind::Css, AssetKind::Islands]);
    let out = text(&files, "index.html");
    assert!(!out.contains("/assets/styles.css\"") && !out.contains("/assets/islands.js\""));
    for (_, url) in &outcome.hashed_asset_urls {
        assert!(out.contains(url.as_str()));
    }
    let assets: Vec<&str> = files.keys().filter_map(|path| path.strip_prefix("assets/")).collect();
    assert_eq!(assets.len(), 2);
    assert!(assets.iter().any(|n| n.starts_with("styles-") && n.ends_with(".css")));
    assert!(assets.iter().any(|n| n.starts_with("islands-") && n.ends_with(".js")));
    assert_eq!(files.len(), 3);
}

#[test]
fn prod_pipeline_ships_companions_verbatim() {
    let chunk: &[u8] = b"import(\"./other.js\");export const x=1;";
    let pipeline = ProductionAssetPipeline::new(emitters(
        None,
        Some(asset(
            b"// entry\nimport(\"./islands-chunk-AAAA1111.js\");",
            "assets/islands.js",
            Some("/assets/islands.js"),
            &[("islands-chunk-AAAA1111.js", chunk)],
        )),
    ));
    let mut files = Files::new();
    let outcome = apply(&pipeline, &plan_full(&[]), vec![], &mut files).unwrap();
    assert_eq!(outcome.hashed_asset_urls.len(), 1);
    assert_eq!(files.len(), 2);
    assert_eq!(files["assets/islands-chunk-AAAA1111.js"], chunk);
    assert!(files
        .keys()
        .any(|n| n.starts_with("assets/islands-") && !n.contains("chunk")));
}

#[test]
fn prod_pipeline_rejects_non_flat_companion_filenames() {
    for bad in ["../escape.js", "sub/dir.js", "a\\b.js", ""] {
        let pipeline = ProductionAssetPipeline::new(emitters(
            None,
            Some(asset(
                b"// entry",
                "assets/islands.js",
                Some("/assets/islands.js"),
                &[(bad, b"x")],
            )),
        ));
        let mut files = Files::new();
        match apply(&pipeline, &plan_full(&[]), vec![], &mut files) {
            Err(ProdError::CompanionName(name)) => assert_eq!(name, bad),
            other => panic!("{other:?}"),
        }
        assert_eq!(files.len(), 1, "the entry is written before its companions");
        assert!(!is_flat_name(bad));
    }
    assert!(is_flat_name("islands-chunk-AAAA1111.js"));
    assert!(!is_flat_name("a..b.js"));
}

#[test]
fn prod_pipeline_ignores_dev_bool_runners() {
    let pipeline: ProductionAssetPipeline<Fixed> = ProductionAssetPipeline::empty();
    let mut run = pipeline.apply(&plan_full(&["/p/a"])).unwrap();
    assert!(matches!(run.action(), ProdAction::Render { .. }));
    run.resume(ProdAnswer::<String>::Rendered(Ok(vec![]))).unwrap();
    assert!(matches!(run.action(), ProdAction::Finish));
}

#[test]
fn prod_pipeline_skips_emit_when_no_emitter_registered() {
    let pipeline = ProductionAssetPipeline::empty();
    let outcome = apply(&pipeline, &plan_full(&[]), vec![], &mut Files::new()).unwrap();
    assert!(outcome.css_rerun);
    assert!(!outcome.css_changed);
    assert!(outcome.islands_rerun);
    assert!(!outcome.islands_changed);
    assert!(outcome.hashed_asset_urls.is_empty());
}

#[test]
fn prod_pipeline_rejects_unresolved_all() {
    let pipeline: ProductionAssetPipeline<Fixed> = ProductionAssetPipeline::empty();
    let mut plan = RebuildPlan::empty();
    plan.pages = PageSelection::All;
    assert!(pipeline.apply(&plan).is_none());
}

#[test]
fn insert_hash_before_extension_handles_common_cases() {
    assert_eq!(
        insert_hash_before_extension("assets/styles.css", "deadbeef"),
        "assets/styles-deadbeef.css"
    );
    assert_eq!(
        insert_hash_before_extension("islands.js", "abcdef12"),
        "islands-abcdef12.js"
    );
    assert_eq!(
        insert_hash_before_extension("assets/manifest", "01020304"),
        "assets/manifest-01020304"
    );
}

#[test]
fn a_hash_goes_before_the_last_extension_only() {
    assert_eq!(insert_hash_before_extension("a/b.tar.gz", "h"), "a/b.tar-h.gz");
    assert_eq!(insert_hash_before_extension("a/.hidden", "h"), "a/.hidden-h");
    assert_eq!(insert_hash_before_extension("a/styles.", "h"), "a/styles-h");
    assert_eq!(insert_hash_before_extension("/x.css", "h"), "/x-h.css");
    assert_eq!(insert_hash_before_extension("a/..", "h"), "a/-h");
    assert_eq!(insert_hash_before_extension("", "h"), "-h");
    assert_eq!(insert_hash_before_extension("/", "h"), "-h");
    assert_eq!(insert_hash_before_extension("a//b/./c.css", "h"), "a//b/c-h.css");
}

#[test]
fn sha256_8_is_byte_stable() {
    let a = sha256_8(b"hello");
    let b = sha256_8(b"hello");
    assert_eq!(a, b);
    assert_eq!(a.len(), 8);
    assert_ne!(a, sha256_8(b"hellp"));
}

#[test]
fn sha256_8_is_the_start_of_the_digest() {
    assert_eq!(sha256_8(b""), "e3b0c442");
    assert_eq!(sha256_8(b"abc"), "ba7816bf");
    assert_eq!(shorten(&vec![0x00, 0x0f, 0xf0, 0xab, 0xcd]), "000ff0ab");
}

#[test]
fn an_asset_without_a_stable_url_gets_one_of_its_path() {
    let pipeline = ProductionAssetPipeline::new(emitters(
        Some(asset(b"abc", "assets//x/./feed.json", None, &[])),
        None,
    ));
    let mut files = Files::new();
    let outcome = apply(
        &pipeline,
        &plan_full(&["/p/i.html"]),
        vec![page("/assets/x/feed.json", "/i.html")],
        &mut files,
    )
    .unwrap();
    assert_eq!(
        outcome.hashed_asset_urls[0].1,
        "/assets/x/feed-ba7816bf.json"
    );
    assert_eq!(text(&files, "i.html"), "/assets/x/feed.json");
    assert_eq!(path_to_url("a/./b//c"), "a/b/c");
}

#[test]
fn client_scripts_are_shipped_one_by_one() {
    let pipeline = ProductionAssetPipeline::new(ProductionEmitters {
        css: None,
        islands: None,
        client_scripts: vec![
            asset(
                b"one",
                "assets/client/a.js",
                Some("/assets/client/a.js"),
                &[],
            ),
            Fixed(Ok(None)),
            asset(
                b"two",
                "assets/client/b.js",
                Some("/assets/client/b.js"),
                &[],
            ),
        ],
    });
    let mut files = Files::new();
    let outcome = apply(
        &pipeline,
        &plan_full(&["/p/i.html"]),
        vec![page("'/assets/client/a.js' '/assets/client/b.js'", "/i.html")],
        &mut files,
    )
    .unwrap();
    assert!(!outcome.client_scripts_rerun && !outcome.client_scripts_changed);
    assert_eq!(outcome.hashed_asset_urls.len(), 2);
    assert!(outcome
        .hashed_asset_urls
        .iter()
        .all(|(k, _)| *k == AssetKind::ClientScript));
    let html = text(&files, "i.html");
    assert!(!html.contains("/a.js") && !html.contains("/b.js"));
    for (_, url) in &outcome.hashed_asset_urls {
        assert!(html.contains(url.as_str()));
    }
}

#[test]
fn errors_end_a_build() {
    let pipeline = ProductionAssetPipeline::new(emitters(
        Some(Fixed(Err("css broke".to_string()))),
        None,
    ));
    assert!(matches!(
        apply(&pipeline, &plan_full(&[]), vec![], &mut Files::new()),
        Err(ProdError::Outside(e)) if e.contains("css broke")
    ));
    let pipeline =
        ProductionAssetPipeline::new(emitters(Some(asset(b"x", "a.css", None, &[])), None));
    let run = pipeline.apply(&plan_full(&[])).unwrap();
    assert!(matches!(
        drive(&pipeline, run, vec![], &mut Files::new(), true),
        Err(ProdError::Outside(e)) if e == "disk full"
    ));
    let mut run = pipeline.apply(&plan_full(&["/p/a"])).unwrap();
    assert!(matches!(
        run.resume(ProdAnswer::Rendered(Err("render"))),
        Err(ProdError::Outside("render"))
    ));
    assert!(matches!(run.action(), ProdAction::Finish));
}

#[test]
fn a_shipped_asset_follows_from_its_hash() {
    let pipeline: ProductionAssetPipeline<Fixed> = ProductionAssetPipeline::new(emitters(
        Some(Fixed(Ok(None))),
        None,
    ));
    let mut run = pipeline.apply(&plan_full(&[])).unwrap();
    assert!(matches!(run.action(), ProdAction::Emit(Slot::Css)));
    run.ship(
        EmittedAsset {
            bytes: b"abc".to_vec(),
            relative_path: "assets/styles.css".to_string(),
            stable_url: Some("https://cdn.test/styles.css".to_string()),
            companions: vec![CompanionFile {
                filename: "styles.css.map".to_string(),
                bytes: b"{}".to_vec(),
            }],
        },
        "deadbeef".to_string(),
    );
    match run.action() {
        ProdAction::WriteAsset { path, bytes } => {
            assert_eq!(path, "assets/styles-deadbeef.css");
            assert_eq!(bytes, b"abc");
        }
        other => panic!("{other:?}"),
    }
    run.resume(ProdAnswer::<()>::Written(Ok(()))).unwrap();
    match run.action() {
        ProdAction::WriteCompanion { path, bytes } => {
            assert_eq!(path, "assets/styles.css.map");
            assert_eq!(bytes, b"{}");
        }
        other => panic!("{other:?}"),
    }
    run.resume(ProdAnswer::<()>::Written(Ok(()))).unwrap();
    assert!(matches!(run.action(), ProdAction::Finish));
    assert_eq!(
        run.into_outcome().hashed_asset_urls,
        vec![(
            AssetKind::Css,
            "https://cdn.test/styles-deadbeef.css".to_string()
        )]
    );
}

fn payload(bytes: &[u8], path: &str, url: &str) -> AssetEmitterPayload {
    AssetEmitterPayload {
        bytes: bytes.to_vec(),
        relative_path: path.to_string(),
        stable_url: url.to_string(),
        companions: Vec::new(),
    }
}

fn staged(rel: &str) -> ProdRenderedFile {
    let output_path = RelDistPath::new(rel).unwrap();
    ProdRenderedFile {
        page: synthesize_page_id_from_output(&output_path),
        output_path,
    }
}

fn build_from_disk(
    files: &mut Files,
    pages: &[&str],
    inputs: ProdAssetEmitterInputs,
) -> Result<BuildOutcome, String> {
    let staged_pages: Vec<ProdRenderedFile> = pages.iter().map(|p| staged(p)).collect();
    let build = apply_prod_asset_pipeline(&staged_pages, inputs).map_err(|e| format!("{e:?}"))?;
    let html = pages
        .iter()
        .map(|p| {
            files
                .get(*p)
                .map(|b| String::from_utf8(b.clone()).unwrap())
                .ok_or_else(|| format!("failed to read rendered page from disk at {p}"))
        })
        .collect::<Result<Vec<String>, String>>()?;
    let rendered = rendered_from_disk(staged_pages, html);
    drive(&build.pipeline, build.run, rendered, files, false).map_err(|e| format!("{e:?}"))
}

#[test]
fn happy_path_writes_hashed_css_and_rewrites_html() {
    let mut files = Files::new();
    files.insert(
        "index.html".to_string(),
        b"<!doctype html><html><head><link rel=\"stylesheet\" href=\"/assets/styles.css\"></head><body>hi</body></html>".to_vec(),
    );
    let mut inputs = ProdAssetEmitterInputs::default();
    inputs.css = Some(payload(
        b".btn{color:red}",
        "assets/styles.css",
        "/assets/styles.css",
    ));
    let outcome = build_from_disk(&mut files, &["index.html"], inputs).unwrap();
    let names: Vec<String> = files
        .keys()
        .filter(|k| k.starts_with("assets/"))
        .cloned()
        .collect();
    assert_eq!(names.len(), 1);
    assert_eq!(names[0].len(), "assets/styles-12345678.css".len());
    assert!(!files[&names[0]].is_empty());
    let html = text(&files, "index.html");
    let hashed_url = format!("/{}", names[0]);
    assert!(html.contains(&hashed_url));
    assert!(!html.contains("/assets/styles.css\""));
    assert_eq!(outcome.hashed_asset_urls.len(), 1);
    assert_eq!(outcome.hashed_asset_urls[0].1, hashed_url);
}

#[test]
fn no_islands_input_skips_islands_asset_emission() {
    let mut files = Files::new();
    files.insert(
        "index.html".to_string(),
        b"<!doctype html><html><head><title>x</title></head><body/></html>".to_vec(),
    );
    let mut inputs = ProdAssetEmitterInputs::default();
    inputs.css = Some(payload(
        b"/*tiny*/",
        "assets/styles.css",
        "/assets/styles.css",
    ));
    let outcome = build_from_disk(&mut files, &["index.html"], inputs).unwrap();
    assert_eq!(files.len(), 2);
    assert!(files.keys().any(|k| k.starts_with("assets/styles-")));
    assert_eq!(outcome.hashed_asset_urls.len(), 1);
}

#[test]
fn both_css_and_islands_rewrite_independently() {
    let mut files = Files::new();
    files.insert(
        "page/index.html".to_string(),
        b"<!doctype html><html><head><link rel=\"stylesheet\" href=\"/assets/styles.css\"><script type=\"module\" src=\"/assets/islands.js\"></script></head><body/></html>".to_vec(),
    );
    let mut inputs = ProdAssetEmitterInputs::default();
    inputs.css = Some(payload(
        b".x{color:red}",
        "assets/styles.css",
        "/assets/styles.css",
    ));
    inputs.islands = Some(payload(
        b"// hydrate",
        "assets/islands.js",
        "/assets/islands.js",
    ));
    let outcome = build_from_disk(&mut files, &["page/index.html"], inputs).unwrap();
    assert_eq!(outcome.hashed_asset_urls.len(), 2);
    let html = text(&files, "page/index.html");
    assert!(!html.contains("/assets/styles.css\""));
    assert!(!html.contains("/assets/islands.js\""));
    for (_, url) in &outcome.hashed_asset_urls {
        assert!(html.contains(url.as_str()));
    }
    assert!(files.keys().any(|n| n.starts_with("assets/styles-")));
    assert!(files.keys().any(|n| n.starts_with("assets/islands-")));
}

#[test]
fn missing_html_file_surfaces_clean_error() {
    let mut inputs = ProdAssetEmitterInputs::default();
    inputs.css = Some(payload(b"x", "assets/styles.css", "/assets/styles.css"));
    let err = build_from_disk(&mut Files::new(), &["ghost.html"], inputs).unwrap_err();
    assert!(err.contains("failed to read rendered page from disk"), "{err}");
}

#[test]
fn empty_pages_still_emits_assets() {
    let mut files = Files::new();
    let mut inputs = ProdAssetEmitterInputs::default();
    inputs.css = Some(payload(b".y{}", "assets/styles.css", "/assets/styles.css"));
    let outcome = build_from_disk(&mut files, &[], inputs).unwrap();
    assert_eq!(outcome.hashed_asset_urls.len(), 1);
    assert_eq!(files.len(), 1);
    assert!(files.keys().all(|n| n.starts_with("assets/styles-")));
}

#[test]
fn duplicate_pages_are_refused() {
    let pages = vec![staged("a.html"), staged("b.html"), staged("./a.html")];
    assert!(apply_prod_asset_pipeline(&pages, ProdAssetEmitterInputs::default()).is_ok());
    let pages = vec![staged("a.html"), staged("b.html"), staged("a//.//b"), staged("a.html")];
    assert_eq!(
        apply_prod_asset_pipeline(&pages, ProdAssetEmitterInputs::default()).err(),
        Some(DuplicatePages {
            pages: 4,
            unique: 3
        })
    );
}

#[test]
fn only_the_production_mode_is_production() {
    assert!(BuildMode::Production.is_prod());
    assert!(!BuildMode::Dev.is_prod());
}

#[test]
fn a_whole_build_ships_its_assets_and_writes_its_pages_in_order() {
    let pipeline = ProductionAssetPipeline::new(ProductionEmitters {
        css: Some(asset(b"c", "assets/s.css", Some("/assets/s.css"), &[])),
        islands: Some(asset(b"i", "assets/i.js", Some("/assets/i.js"), &[("k.js", b"k")])),
        client_scripts: vec![
            Fixed(Ok(None)),
            asset(b"t", "assets/client/t.js", Some("/assets/client/t.js"), &[]),
        ],
    });
    let html = "'/assets/s.css' '/assets/i.js' '/assets/client/t.js' '/assets/s.css.map'";
    let mut rendered = vec![page(html, "/b.html"), page("-", "/a.html")];
    let mut run = pipeline.apply(&plan_full(&["/p/b.html", "/p/a.html"])).unwrap();
    let mut written: Vec<(String, String)> = Vec::new();
    let outcome = loop {
        let answer: ProdAnswer<String> = match run.action() {
            ProdAction::Render { .. } => ProdAnswer::Rendered(Ok(std::mem::take(&mut rendered))),
            ProdAction::Emit(slot) => ProdAnswer::Emitted(emit(pipeline.emitters(), slot)),
            ProdAction::WriteAsset { path, bytes }
            | ProdAction::WriteCompanion { path, bytes }
            | ProdAction::WritePage { path, bytes, .. } => {
                written.push((path, String::from_utf8(bytes).unwrap()));
                ProdAnswer::Written(Ok(()))
            }
            ProdAction::Finish => break run.into_outcome(),
        };
        run.resume(answer).unwrap();
    };
    let css = format!("s-{}.css", sha256_8(b"c"));
    let islands = format!("i-{}.js", sha256_8(b"i"));
    let script = format!("t-{}.js", sha256_8(b"t"));
    let text = format!(
        "'/assets/{css}' '/assets/{islands}' '/assets/client/{script}' '/assets/s.css.map'"
    );
    assert_eq!(
        written,
        vec![
            (format!("assets/{css}"), "c".to_string()),
            (format!("assets/{islands}"), "i".to_string()),
            ("assets/k.js".to_string(), "k".to_string()),
            (format!("assets/client/{script}"), "t".to_string()),
            ("b.html".to_string(), text),
            ("a.html".to_string(), "-".to_string()),
        ]
    );
    assert_eq!(
        outcome.hashed_asset_urls,
        vec![
            (AssetKind::Css, format!("/assets/{css}")),
            (AssetKind::Islands, format!("/assets/{islands}")),
            (AssetKind::ClientScript, format!("/assets/client/{script}")),
        ]
    );
    assert_eq!(outcome.pages_rendered, 2);
    let pages: Vec<&str> = outcome.pages_written.iter().map(|p| p.path()).collect();
    assert_eq!(pages, vec!["/p/b.html", "/p/a.html"]);
    assert!(outcome.css_changed && outcome.islands_changed);
}
