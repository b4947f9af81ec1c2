use std::path::{Component, Path};

use zfb_build::order::{order_texts, Order};
use zfb_build::page::{PageId, PageSet};
use zfb_build::path::{
    file_name, join_path, order_paths, parent, parts_of, path_starts_with, same_path, spell,
    split_name, PathPart, RelDistPath, RelDistPathError,
};
use zfb_build::path_map::PathMap;
use zfb_build::pipeline::cache::WriteCache;
use zfb_build::pipeline::publication::{
    DocumentPublicationEvent, DocumentPublicationTransaction,
};
use zfb_build::text::{
    contains, copy_str, ends_with, eq_ignore_ascii_case, is_white_space, parse_u64, starts_with,
    to_chars, trim_chars,
};
use zfb_build::text_map::TextMap;

const PATHS: [&str; 24] = [
    "", "/", ".", "..", "./", "../", "a", "a/", "a/b", "/a", "/a/b", "//a//b//", "a/./b", "./a/b",
    "a/../b", "../a", "/..", "/./a", "a.b", ".a", "a..", "a/.b.c", "\u{e9}/\u{1F600}", "a/b.c.d",
];

fn list(path: &str) -> Vec<String> {
    parts_of(path).iter().map(part).collect()
}

fn part(part: &PathPart) -> String {
    match part {
        PathPart::Root => "root".to_string(),
        PathPart::Current => "current".to_string(),
        PathPart::Parent => "parent".to_string(),
        PathPart::Normal(name) => format!("name {name}"),
    }
}

fn component(component: Component) -> String {
    match component {
        Component::RootDir => "root".to_string(),
        Component::CurDir => "current".to_string(),
        Component::ParentDir => "parent".to_string(),
        Component::Normal(name) => format!("name {}", name.to_str().unwrap()),
        Component::Prefix(_) => unreachable!(),
    }
}

fn order(o: std::cmp::Ordering) -> Order {
    match o {
        std::cmp::Ordering::Less => Order::Less,
        std::cmp::Ordering::Equal => Order::Equal,
        std::cmp::Ordering::Greater => Order::Greater,
    }
}

#[test]
fn paths_have_the_components_that_std_gives_them() {
    for path in PATHS {
        let expected: Vec<String> = Path::new(path).components().map(component).collect();
        assert_eq!(list(path), expected, "{path:?}");
    }
}

#[test]
fn paths_are_compared_as_std_compares_them() {
    for a in PATHS {
        for b in PATHS {
            let (pa, pb) = (Path::new(a), Path::new(b));
            assert_eq!(same_path(a, b), pa == pb, "{a:?} {b:?}");
            assert_eq!(path_starts_with(a, b), pa.starts_with(pb), "{a:?} {b:?}");
            assert!(order_paths(a, b) == order(pa.cmp(pb)), "{a:?} {b:?}");
            assert_eq!(join_path(a, b), pa.join(pb).to_str().unwrap(), "{a:?} {b:?}");
        }
    }
}

#[test]
fn names_are_split_as_std_splits_them() {
    for path in PATHS {
        let p = Path::new(path);
        let name = file_name(path);
        assert_eq!(name.as_deref(), p.file_name().map(|n| n.to_str().unwrap()));
        if let Some(name) = name {
            let (stem, extension) = split_name(&name);
            assert_eq!(Some(stem.as_str()), p.file_stem().map(|n| n.to_str().unwrap()));
            assert_eq!(extension.as_deref(), p.extension().map(|n| n.to_str().unwrap()));
        }
        let above = p.parent().unwrap_or(Path::new(""));
        assert_eq!(parent(path), above.to_str().unwrap(), "{path:?}");
        assert!(same_path(&spell(&parts_of(path)), path), "{path:?}");
    }
}

#[test]
fn a_directory_is_spelled_as_its_path_spells_it() {
    for (path, above) in [
        ("/a//b/c.ts", "/a//b"),
        ("a//b/./c.css", "a//b"),
        ("a/./b//c/", "a/./b"),
        ("./././a", "."),
        ("./a/.//b", "./a"),
        ("//a", "/"),
        ("/.//a/b/./", "/.//a"),
        ("a/b/../c", "a/b/.."),
        ("a/..", "a"),
        ("c.css", ""),
        ("/", ""),
    ] {
        assert_eq!(parent(path), above, "{path:?}");
        let expected = Path::new(path).parent().unwrap_or(Path::new(""));
        assert_eq!(parent(path), expected.to_str().unwrap(), "{path:?}");
    }
}

#[test]
fn texts_are_ordered_as_std_orders_them() {
    let texts = ["", "a", "A", "aa", "b", "\u{e9}", "\u{ffff}", "\u{1F600}", "a\u{0}"];
    for a in texts {
        for b in texts {
            assert!(order_texts(a, b) == order(a.cmp(b)), "{a:?} {b:?}");
        }
    }
}

#[test]
fn relative_paths_that_stay_inside_are_accepted() {
    for path in ["", ".", "a", "a/b.html", "a/../b", "./a/./b", "a/b/../../c"] {
        let accepted = RelDistPath::new(path).unwrap();
        assert_eq!(accepted.as_path(), path);
        assert_eq!(accepted.copy().into_path_buf(), path);
    }
}

#[test]
fn absolute_paths_are_refused() {
    for path in ["/", "/a", "//a/../..", "/../a"] {
        match RelDistPath::new(path) {
            Err(RelDistPathError::Absolute(p)) => assert_eq!(p, path),
            other => unreachable!("expected Absolute, got {other:?}"),
        }
    }
}

#[test]
fn paths_that_leave_the_root_are_refused() {
    for path in ["..", "../a", "a/../..", "a/../../a", "./.."] {
        match RelDistPath::new(path) {
            Err(RelDistPathError::Escapes(p)) => assert_eq!(p, path),
            other => unreachable!("expected Escapes, got {other:?}"),
        }
    }
}

#[test]
fn an_accepted_path_lies_below_what_it_is_joined_to() {
    for root in ["/dist", "dist", "/"] {
        for path in ["a", "a/b.html", "./a"] {
            let rel = RelDistPath::new(path).unwrap();
            assert!(path_starts_with(&join_path(root, rel.as_path()), root));
        }
    }
}

#[test]
fn white_space_is_what_std_takes_for_it() {
    for n in 0..0x3100u32 {
        if let Some(c) = char::from_u32(n) {
            assert_eq!(is_white_space(c), c.is_whitespace(), "{n:x}");
        }
    }
    for s in ["", "  ", "\ta b\n", "\u{3000}x\u{a0}", "x"] {
        assert_eq!(trim_chars(s), s.trim().chars().collect::<Vec<char>>());
    }
}

#[test]
fn numbers_are_read_as_std_reads_them() {
    for s in [
        "", "+", "-", "0", "+0", "-0", "007", "18446744073709551615", "18446744073709551616", "1x",
        " 1", "\u{664}", "99999999999999999999999",
    ] {
        assert_eq!(parse_u64(&to_chars(s)), s.parse::<u64>().ok(), "{s:?}");
    }
}

#[test]
fn texts_are_searched_as_std_searches_them() {
    let texts = ["", "a", "ab", "ba", "aba", "abab", "\u{e9}a"];
    for s in texts {
        assert_eq!(copy_str(s), s);
        for n in texts {
            let (chars, needle) = (to_chars(s), to_chars(n));
            assert_eq!(starts_with(&chars, &needle), s.starts_with(n));
            assert_eq!(ends_with(&chars, &needle), s.ends_with(n));
            assert_eq!(contains(&chars, &needle), s.contains(n));
        }
    }
    assert!(eq_ignore_ascii_case(&to_chars("FaLsE"), "false"));
    assert!(!eq_ignore_ascii_case(&to_chars("falsy"), "false"));
    assert!(!eq_ignore_ascii_case(&to_chars("\u{212a}"), "k"));
}

fn pid(s: &str) -> PageId {
    PageId::new(s.to_string())
}

#[test]
fn a_page_set_holds_each_page_once_and_lists_them_in_order() {
    let mut set = PageSet::from_list(&vec![pid("b"), pid("a/c"), pid("a"), pid("b"), pid("a//c")]);
    assert_eq!(set.len(), 3);
    let listed: Vec<String> = set.to_vec().iter().map(|p| p.path().to_string()).collect();
    assert_eq!(listed, vec!["a", "a/c", "b"]);
    set.extend(PageSet::from_list(&vec![pid("a"), pid("z")]));
    assert_eq!(set.len(), 4);
    assert!(set.contains(&pid("z")) && !set.contains(&pid("y")));
    assert!(PageSet::new().is_empty() && !set.copy().is_empty());
}

#[test]
fn a_path_map_finds_a_path_under_each_of_its_spellings() {
    let mut map: PathMap<u64> = PathMap::new();
    map.insert("/dist/a".to_string(), 1);
    map.insert("/dist//a/".to_string(), 2);
    map.insert("/dist/b".to_string(), 3);
    assert_eq!(map.get("/dist/./a"), Some(&2));
    map.remove("/dist//b");
    assert_eq!(map.get("/dist/b"), None);
    assert_eq!(map.get("/dist/a"), Some(&2));
}

#[test]
fn a_text_map_is_listed_in_the_order_of_its_keys() {
    let pair = |k: &str, v: &str| (k.to_string(), v.to_string());
    let mut map = TextMap::new();
    assert!(map.is_empty());
    map.insert("b".to_string(), "1".to_string());
    map.insert("a".to_string(), "2".to_string());
    map.extend(&vec![pair("b", "3"), pair("c", "4")]);
    assert_eq!(map.get("b"), Some(&"3".to_string()));
    assert_eq!(map.copy().to_pairs(), vec![pair("a", "2"), pair("b", "3"), pair("c", "4")]);
    map.remove("a");
    assert_eq!(map.get("a"), None);
    assert_eq!(map.to_pairs(), vec![pair("b", "3"), pair("c", "4")]);
}

#[test]
fn a_cache_asks_again_for_what_was_evicted() {
    let mut cache = WriteCache::new();
    let bytes = b"<p>".to_vec();
    assert!(cache.needs_write("/dist/a.html", &bytes));
    cache.commit_bytes("/dist/a.html", bytes.clone());
    cache.commit_page(&pid("a"), "/dist/a.html");
    assert!(!cache.needs_write("/dist//a.html", &bytes));
    assert!(cache.needs_write("/dist/a.html", &b"<b>".to_vec()));
    assert_eq!(cache.stale_path(&pid("a"), "/dist/a.html"), None);
    assert_eq!(
        cache.stale_path(&pid("a"), "/dist/b.html"),
        Some("/dist/a.html".to_string())
    );
    cache.evict_path("/dist/./a.html");
    assert!(cache.needs_write("/dist/a.html", &bytes));
    assert_eq!(cache.stale_path(&pid("a"), "/dist/b.html"), None);
    cache.commit_bytes("/dist/a.html", bytes.clone());
    cache.clear();
    assert!(cache.needs_write("/dist/a.html", &bytes));
}

fn names(events: Vec<DocumentPublicationEvent>) -> Vec<String> {
    events.iter().map(|e| format!("{e:?}")).collect()
}

#[test]
fn a_publication_ends_exactly_once() {
    let mut committed = DocumentPublicationTransaction::begin(true);
    committed.document_write_started("/dist/a".to_string());
    committed.document_write_started("/dist/b".to_string());
    committed.document_paths_removed(Vec::new());
    committed.commit(DocumentPublicationEvent::CommitPublished);
    committed.close();
    assert_eq!(
        names(committed.take()),
        vec![
            "Begin",
            "DocumentMutationStarted",
            "DocumentWriteStarted(\"/dist/a\")",
            "DocumentWriteStarted(\"/dist/b\")",
            "CommitPublished",
        ]
    );
    assert!(committed.take().is_empty());

    let mut aborted = DocumentPublicationTransaction::begin(true);
    aborted.close();
    aborted.close();
    assert_eq!(names(aborted.take()), vec!["Begin", "AbortBeforeDocumentWrite"]);

    let mut pending = DocumentPublicationTransaction::begin(true);
    pending.document_mutation_started();
    pending.close();
    assert_eq!(
        names(pending.take()),
        vec!["Begin", "DocumentMutationStarted", "LeavePending"]
    );

    let mut silent = DocumentPublicationTransaction::begin(false);
    silent.close();
    assert!(silent.take().is_empty());
}

#[test]
fn a_page_keeps_the_spelling_under_which_it_came_first() {
    let list = |set: &PageSet| -> Vec<String> {
        set.to_vec().iter().map(|p| p.path().to_string()).collect()
    };
    let mut set = PageSet::from_list(&vec![pid("b//x"), pid("a"), pid("b/x")]);
    assert_eq!(list(&set), vec!["a", "b//x"]);
    set.insert(pid("b/./x"));
    set.insert(pid("a/./m"));
    assert_eq!(list(&set), vec!["a", "a/./m", "b//x"]);
    set.extend(PageSet::from_list(&vec![pid("a/m"), pid("c/")]));
    assert_eq!(list(&set), vec!["a", "a/./m", "b//x", "c/"]);
    assert_eq!(list(&set.copy()), list(&set));
}
