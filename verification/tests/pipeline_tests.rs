//! Whole-pipeline scenarios: building and linking pages, deferred
//! reference resolution across pages, table-of-contents marking, and
//! build determinism.

use rocket::directives::register_standard_prelude;
use rocket::evaluator::{Evaluator, Worker};
use rocket::page::Slug;
use rocket::project::{build_page, derive_slug, evaluate_source, find_template, link_page};
use rocket::toctree::TocTree;

fn standard_worker() -> Worker {
    let mut evaluator = Evaluator::new();
    register_standard_prelude(&mut evaluator, "3.4.0");
    Worker::new(evaluator)
}

#[test]
fn heading_evaluation_produces_section_and_anchor() {
    let mut worker = standard_worker();
    worker.set_slug(Slug::new("index".to_owned()));
    let out = evaluate_source(&mut worker, "index.rocket", "(:h1 Rocket:)").unwrap();
    assert_eq!(out, "<section><h1 id=\"rocket\">Rocket</h1>");
}

#[test]
fn let_bindings_evaluate_lazily_and_restore() {
    let mut worker = standard_worker();
    worker.set_slug(Slug::new("index".to_owned()));
    let out = evaluate_source(
        &mut worker,
        "index.rocket",
        "(:let (x (:concat \"a\" \"b\":)) (:concat (:x:) (:x:)):)",
    )
    .unwrap();
    assert_eq!(out, "abab");
    // The binding was restored: `x` no longer resolves afterwards.
    assert!(worker.ctx.get("x").is_none());
}

#[test]
fn let_restores_across_rebinding_bodies() {
    let mut worker = standard_worker();
    worker.set_slug(Slug::new("index".to_owned()));
    // The inner binding shadows the outer one and is itself restored.
    let out = evaluate_source(
        &mut worker,
        "index.rocket",
        "(:let (k one) (:concat (:let (k two) (:k:):) (:k:):):)",
    )
    .unwrap();
    assert_eq!(out, "twoone");
    assert!(worker.ctx.get("k").is_none());

    // A `define` inside the body binds for the rest of the page and is
    // deliberately not restored.
    let out = evaluate_source(
        &mut worker,
        "index.rocket",
        "(:let (k one) (:define j x:):)(:j:)",
    )
    .unwrap();
    assert_eq!(out, "x");
    assert!(worker.ctx.get("k").is_none());
}

#[test]
fn let_restores_a_twice_bound_key_to_its_prior_value() {
    let mut worker = standard_worker();
    worker.set_slug(Slug::new("index".to_owned()));
    // Within the body the later binding wins; unwinding most recent
    // first leaves the key exactly as it stood before the `let`.
    let out = evaluate_source(
        &mut worker,
        "index.rocket",
        "(:define k outer:)(:let (k a k b) (:k:):)(:k:)",
    )
    .unwrap();
    assert_eq!(out, "bouter");

    // With no prior binding, a twice-bound key ends unbound again.
    let out = evaluate_source(
        &mut worker,
        "index.rocket",
        "(:let (x a x b) (:x:):)",
    )
    .unwrap();
    assert_eq!(out, "b");
    assert!(worker.ctx.get("x").is_none());
}

#[test]
fn stray_percent_signs_pass_through_linking() {
    let mut worker = standard_worker();
    let slug = derive_slug("content/p.rocket", "content");
    let page = build_page(&mut worker, "content/p.rocket", slug, "50% of 10%% is %").unwrap();
    let templates: Vec<(String, String)> = vec![];
    let (_, linked) = link_page(&worker.evaluator, &templates, &page).unwrap();
    assert_eq!(linked, page.body);
}

#[test]
fn literal_page_round_trips() {
    let mut worker = standard_worker();
    worker.set_slug(Slug::new("index".to_owned()));
    let text = "just some text.\nmore of it: no delimiters here";
    let out = evaluate_source(&mut worker, "index.rocket", text).unwrap();
    assert_eq!(out, text);
}

#[test]
fn prose_keeps_bare_parentheses() {
    let mut worker = standard_worker();
    worker.set_slug(Slug::new("index".to_owned()));
    let text = "a fast (and powerful) text markup format";
    let out = evaluate_source(&mut worker, "index.rocket", text).unwrap();
    assert_eq!(out, text);

    // Inside an expression the same characters delimit an argument
    // group, which is how a binding list is written.
    let mut worker = standard_worker();
    worker.set_slug(Slug::new("index".to_owned()));
    let out = evaluate_source(&mut worker, "index.rocket", "(:let (x y) (:x:):)").unwrap();
    assert_eq!(out, "y");
}

#[test]
fn bare_closer_is_inert_inside_a_deeper_fence() {
    let mut worker = standard_worker();
    worker.set_slug(Slug::new("index".to_owned()));
    // Inside a depth-one fence a bare `)` closes nothing: it is
    // reproduced literally, and only `::)` closes the block.
    let out = evaluate_source(&mut worker, "index.rocket", "(::`` )::)").unwrap();
    assert_eq!(out, "<code>)</code>");
}

#[test]
fn one_argument_heading_registers_its_derived_id() {
    let mut worker = standard_worker();
    worker.set_slug(Slug::new("guide".to_owned()));
    let out = evaluate_source(&mut worker, "guide.rocket", "(:h1 \"Getting Started\":)").unwrap();
    assert_eq!(out, "<section><h1 id=\"getting-started\">Getting Started</h1>");
    let refdef = worker.evaluator.find_refdef("getting-started").unwrap();
    assert_eq!(refdef.title, "Getting Started");
    assert_eq!(refdef.slug.as_str(), "guide");
}

#[test]
fn three_records_cross_page_reference() {
    let mut worker = standard_worker();

    let slug_a = derive_slug("content/a.rocket", "content");
    assert_eq!(slug_a.as_str(), "a");
    let page_a = build_page(
        &mut worker,
        "content/a.rocket",
        slug_a,
        "(:define-ref target \"Target Page\":)",
    )
    .unwrap();
    assert_eq!(page_a.body, "");

    let slug_b = derive_slug("content/b.rocket", "content");
    let page_b = build_page(&mut worker, "content/b.rocket", slug_b, "(:ref target:)").unwrap();

    let templates: Vec<(String, String)> = vec![];
    let (template, linked) = link_page(&worker.evaluator, &templates, &page_b).unwrap();
    assert_eq!(template, "default");
    assert_eq!(linked, "<a href=\"../a\">Target Page</a>");
}

#[test]
fn unknown_reference_fails_only_that_page() {
    let mut worker = standard_worker();
    let slug = derive_slug("content/x.rocket", "content");
    let page = build_page(&mut worker, "content/x.rocket", slug, "(:ref missing:)").unwrap();
    let templates: Vec<(String, String)> = vec![];
    assert!(link_page(&worker.evaluator, &templates, &page).is_err());
}

#[test]
fn illegal_heading_jump_evaluates_empty() {
    let mut worker = standard_worker();
    worker.set_slug(Slug::new("index".to_owned()));
    let out = evaluate_source(&mut worker, "index.rocket", "(:h3 Too Deep:)").unwrap();
    assert_eq!(out, "");
    assert!(!worker.diagnostics.is_empty());
}

#[test]
fn builds_are_reproducible() {
    let mut outputs: Vec<String> = Vec::new();
    for _ in 0..2 {
        let mut worker = standard_worker();
        let slug_a = derive_slug("content/a.rocket", "content");
        build_page(
            &mut worker,
            "content/a.rocket",
            slug_a,
            "(:define-ref target \"Target Page\":)",
        )
        .unwrap();
        let slug_b = derive_slug("content/b.rocket", "content");
        let page_b =
            build_page(&mut worker, "content/b.rocket", slug_b, "(:ref target:)").unwrap();
        let templates: Vec<(String, String)> = vec![];
        let (_, linked) = link_page(&worker.evaluator, &templates, &page_b).unwrap();
        outputs.push(linked);
    }
    assert_eq!(outputs[0], outputs[1]);
}

#[test]
fn toctree_marks_exactly_the_ancestor_chain() {
    let mut tree = TocTree::new(Slug::new("index".to_owned()), true);
    let index = Slug::new("index".to_owned());
    let a = Slug::new("a".to_owned());
    let b = Slug::new("b".to_owned());
    let c = Slug::new("c".to_owned());
    tree.add(&index, a.clone(), Some("A".to_owned()));
    tree.add(&index, b.clone(), Some("B".to_owned()));
    tree.add(&a, c.clone(), Some("C".to_owned()));
    tree.finish(vec![(index.clone(), "Home".to_owned())]);

    assert!(tree.is_ancestor_of(&a, &c, 10));
    assert!(tree.is_ancestor_of(&index, &c, 10));
    assert!(!tree.is_ancestor_of(&b, &c, 10));
    assert!(tree.is_ancestor_of(&c, &c, 10));

    let html = tree.generate_html(&index, &c, true, 10).unwrap();
    let expected = "<ul><li class=\"current\"><a href=\"../\">Home</a></li><li class=\"current\"><a href=\"../a\">A</a><ul><li class=\"current\"><a href=\"../c\">C</a></li></ul></li><li><a href=\"../b\">B</a></li></ul></ul>";
    assert_eq!(html, expected);
}

#[test]
fn toctree_missing_title_is_an_error() {
    let mut tree = TocTree::new(Slug::new("index".to_owned()), true);
    let index = Slug::new("index".to_owned());
    let a = Slug::new("a".to_owned());
    tree.add(&index, a.clone(), None);
    tree.finish(vec![(index.clone(), "Home".to_owned())]);
    // `a` has neither an explicit nor an extracted title.
    assert!(tree.generate_html(&index, &a, true, 10).is_err());
}

#[test]
fn find_template_matches_glob_patterns() {
    let templates = vec![
        ("guide/*.rocket".to_owned(), "guide".to_owned()),
        ("*.rocket".to_owned(), "page".to_owned()),
    ];
    assert_eq!(find_template(&templates, "guide/intro.rocket"), "guide");
    assert_eq!(find_template(&templates, "other.rocket"), "page");
    assert_eq!(find_template(&templates, "notes.txt"), "default");
}

#[test]
fn slug_paths_and_output_files() {
    let index = Slug::new("index".to_owned());
    assert_eq!(index.create_output_path("build", true), "build/index.html");
    let nested = Slug::new("a/b".to_owned());
    assert_eq!(nested.create_output_path("build", true), "build/a/b/index.html");
    assert_eq!(nested.create_output_path("build", false), "build/a/b.html");
    assert_eq!(nested.depth(true), 2);
    assert_eq!(nested.depth(false), 1);
    assert_eq!(nested.path_to("c", true), "../../c");
    assert_eq!(index.path_to("c", true), "c");
}

#[test]
fn code_directive_highlights_through_the_collaborator() {
    let mut worker = standard_worker();
    worker.set_slug(Slug::new("index".to_owned()));
    let out = evaluate_source(&mut worker, "index.rocket", "(:code txt =>\n  sudo make:)");
    let out = out.unwrap();
    assert!(out.starts_with("<pre"));
    assert!(out.contains("sudo make"));

    // An unknown language is a directive error: the page goes on, the
    // block evaluates empty.
    let mut worker = standard_worker();
    worker.set_slug(Slug::new("index".to_owned()));
    let out = evaluate_source(&mut worker, "index.rocket", "(:code zzzqq =>\n  nothing:)");
    assert_eq!(out.unwrap(), "");
}

#[test]
fn define_template_validates_patterns() {
    let mut worker = standard_worker();
    worker.set_slug(Slug::new("index".to_owned()));
    // An invalid checker pattern makes the definition fail, so the name
    // never binds and its use evaluates empty.
    let out = evaluate_source(
        &mut worker,
        "index.rocket",
        "(:define-template bad \"x\" \"(\":)(:bad:)",
    )
    .unwrap();
    assert_eq!(out, "");

    // A failing checker makes the invocation fail.
    let mut worker = standard_worker();
    worker.set_slug(Slug::new("index".to_owned()));
    let out = evaluate_source(
        &mut worker,
        "index.rocket",
        "(:define-template lnk \"[${0}]\" \"^/.*$\":)(:lnk nope:)",
    )
    .unwrap();
    assert_eq!(out, "");

    // A passing checker substitutes the argument.
    let mut worker = standard_worker();
    worker.set_slug(Slug::new("index".to_owned()));
    let out = evaluate_source(
        &mut worker,
        "index.rocket",
        "(:define-template lnk \"[${0}]\" \"^/.*$\":)(:lnk /ok:)",
    )
    .unwrap();
    assert_eq!(out, "[/ok]");
}

#[test]
fn include_reads_from_the_source_set() {
    let mut worker = standard_worker();
    worker.set_slug(Slug::new("index".to_owned()));
    worker
        .sources
        .push(("snippet.rocket".to_owned(), "shared text".to_owned()));
    let out = evaluate_source(&mut worker, "index.rocket", "(:include snippet.rocket:)");
    assert_eq!(out.unwrap(), "shared text");

    let mut worker = standard_worker();
    worker.set_slug(Slug::new("index".to_owned()));
    let out = evaluate_source(&mut worker, "index.rocket", "(:include missing.rocket:)");
    assert_eq!(out.unwrap(), "");
    assert!(!worker.diagnostics.is_empty());
}

#[test]
fn version_truncation_beyond_components_is_an_error() {
    let mut worker = standard_worker();
    worker.set_slug(Slug::new("index".to_owned()));
    // Three stored components; an argument asking for four is a
    // directive error, so the invocation evaluates empty.
    let out = evaluate_source(&mut worker, "index.rocket", "(:version x.y.z.w:)").unwrap();
    assert_eq!(out, "");
    let out = evaluate_source(&mut worker, "index.rocket", "(:version x.y:)").unwrap();
    assert_eq!(out, "3.4");
}

#[test]
fn escape_string_escapes_html_metacharacters() {
    assert_eq!(
        rocket::directives::escape_string("a<b>&\"c'"),
        "a&lt;b&gt;&amp;&#34;c&#39;"
    );
    assert_eq!(rocket::directives::escape_string("plain"), "plain");
}

#[test]
fn placeholder_markers_are_prefixed_and_indexed() {
    let mut worker = standard_worker();
    let marker = worker.get_placeholder(
        "some-ref".to_owned(),
        rocket::evaluator::PlaceholderAction::Path,
    );
    assert!(marker.starts_with('%'));
    assert!(marker.ends_with("-0%"));
    assert_eq!(marker.len(), 1 + 32 + 2 + 1);
}
