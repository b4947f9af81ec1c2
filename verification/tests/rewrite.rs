use zfb_build::pipeline::asset::rewrite_url;
use zfb_build::pipeline::rewrite::{
    boundary_replace, is_url_boundary, rewrite_all, sort_rewrites, Rewrite,
};

#[test]
fn boundary_replace_rewrites_at_quote_boundaries() {
    let html = r#"<link href="/styles.css">"#;
    let out = boundary_replace(html, "/styles.css", "/styles-abc.css");
    assert_eq!(out, r#"<link href="/styles-abc.css">"#);
}

#[test]
fn boundary_replace_does_not_rewrite_inside_longer_url() {
    let html = r#"<a href="/styles.css.map">"#;
    let out = boundary_replace(html, "/styles.css", "/styles-abc.css");
    assert_eq!(out, r#"<a href="/styles.css.map">"#);
}

#[test]
fn boundary_replace_mixed_match_and_no_match() {
    let html = r#"<link rel="stylesheet" href="/styles.css"><a href="/styles.css.map">map</a>"#;
    let out = boundary_replace(html, "/styles.css", "/styles-abc.css");
    let expected =
        r#"<link rel="stylesheet" href="/styles-abc.css"><a href="/styles.css.map">map</a>"#;
    assert_eq!(out, expected);
}

#[test]
fn boundary_replace_handles_end_of_string() {
    let out = boundary_replace("/styles.css", "/styles.css", "/styles-abc.css");
    assert_eq!(out, "/styles-abc.css");
}

#[test]
fn boundary_replace_preserves_multibyte_surroundings() {
    let html = "前<link href=\"/styles.css\">後";
    let out = boundary_replace(html, "/styles.css", "/styles-abc.css");
    assert_eq!(out, "前<link href=\"/styles-abc.css\">後");
}

#[test]
fn boundary_replace_does_not_rewrite_with_leading_non_delimiter() {
    let html = r#"<link href="/myfoo.css">"#;
    let out = boundary_replace(html, "/foo.css", "/foo-abc.css");
    assert_eq!(out, r#"<link href="/myfoo.css">"#);
}

#[test]
fn boundary_replace_rewrites_at_start_of_string() {
    let out = boundary_replace("/styles.css\"", "/styles.css", "/styles-abc.css");
    assert_eq!(out, "/styles-abc.css\"");
}

#[test]
fn boundary_replace_rewrites_after_query_param_equals() {
    let html = r#"<a href="/download?asset=/assets/styles.css">dl</a>"#;
    let out = boundary_replace(html, "/assets/styles.css", "/assets/styles-abc.css");
    assert_eq!(
        out,
        r#"<a href="/download?asset=/assets/styles-abc.css">dl</a>"#
    );
}

#[test]
fn boundary_replace_rewrites_inside_srcset() {
    let html = r#"<img srcset="/img/a.png 1x,/img/b.png 2x">"#;
    let out_a = boundary_replace(html, "/img/a.png", "/img/a-1.png");
    let out_b = boundary_replace(&out_a, "/img/b.png", "/img/b-2.png");
    assert_eq!(
        out_b,
        r#"<img srcset="/img/a-1.png 1x,/img/b-2.png 2x">"#
    );
}

#[test]
fn boundary_replace_rewrites_inside_url_function() {
    let css = "background:url(/foo.css);";
    let out = boundary_replace(css, "/foo.css", "/foo-abc.css");
    assert_eq!(out, "background:url(/foo-abc.css);");
}

#[test]
fn rewrite_url_swaps_only_the_filename_portion() {
    let from = "/assets/styles.css";
    let rel = "assets/styles.css";
    let hashed = "assets/styles-deadbeef.css";
    assert_eq!(rewrite_url(from, rel, hashed), "/assets/styles-deadbeef.css");

    let cdn = "https://cdn.example.test/v1/styles.css";
    assert_eq!(
        rewrite_url(cdn, rel, hashed),
        "https://cdn.example.test/v1/styles-deadbeef.css"
    );
}

#[test]
fn rewrite_url_leaves_a_url_that_does_not_end_with_the_name() {
    assert_eq!(
        rewrite_url("/assets/other.css", "assets/styles.css", "assets/styles-deadbeef.css"),
        "/assets/other.css"
    );
    assert_eq!(rewrite_url("/assets/", "", "-deadbeef"), "/assets/");
}

#[test]
fn boundary_replace_with_an_empty_needle_changes_nothing() {
    assert_eq!(boundary_replace("a b", "", "x"), "a b");
}

#[test]
fn boundary_replace_goes_on_behind_a_match() {
    assert_eq!(boundary_replace("/a /a,/a", "/a", "/b"), "/b /b,/b");
    assert_eq!(boundary_replace("=a=a=", "a", "b"), "=b=b=");
    assert_eq!(boundary_replace("a b b", "a b", "a"), "a b");
}

#[test]
fn only_delimiters_are_url_boundaries() {
    assert!(is_url_boundary(None));
    for c in "\"'\\\n\r\t <>?#()=,;".chars() {
        assert!(is_url_boundary(Some(c)), "{c:?}");
    }
    for c in "aZ09./_-:&%é前".chars() {
        assert!(!is_url_boundary(Some(c)), "{c:?}");
    }
}

fn rewrite(from: &str, to: &str) -> Rewrite {
    Rewrite {
        from: from.to_string(),
        to: to.to_string(),
    }
}

#[test]
fn longer_urls_are_sorted_first_and_ties_keep_their_order() {
    let list = vec![
        rewrite("/a", "1"),
        rewrite("/bbbb", "2"),
        rewrite("/é", "3"),
        rewrite("/cc", "4"),
        rewrite("/d", "5"),
    ];
    let sorted: Vec<String> = sort_rewrites(&list).into_iter().map(|r| r.from).collect();
    assert_eq!(sorted, vec!["/bbbb", "/é", "/cc", "/a", "/d"]);
}

#[test]
fn no_old_url_is_left_by_itself_and_new_ones_are_there() {
    let list = sort_rewrites(&vec![
        rewrite("/assets/styles.css", "/assets/styles-1.css"),
        rewrite("/assets/islands.js", "/assets/islands-2.js"),
    ]);
    let html = "<a href=\"/assets/styles.css\"><b src='/assets/islands.js'>/assets/styles.css.map";
    assert_eq!(
        rewrite_all(html, &list),
        "<a href=\"/assets/styles-1.css\"><b src='/assets/islands-2.js'>/assets/styles.css.map"
    );
}

#[test]
fn rewrites_are_made_one_after_the_other() {
    let list = vec![rewrite("a", "b"), rewrite("b", "c")];
    assert_eq!(rewrite_all("a b", &list), "c c");
}

#[test]
fn boundary_replace_works_on_each_side_of_a_delimiter_by_itself() {
    let parts = ["/a.css", "x/a.css", "/a.css /a.css", "", "/a.css.map"];
    for a in parts {
        for b in parts {
            for d in ["\"", " ", "(", ";"] {
                let whole = boundary_replace(&format!("{a}{d}{b}"), "/a.css", "/b.css");
                let left = boundary_replace(a, "/a.css", "/b.css");
                let right = boundary_replace(b, "/a.css", "/b.css");
                assert_eq!(whole, format!("{left}{d}{right}"));
            }
        }
    }
}
