//! The directive handlers, each invoked as the evaluator dispatches them.

use rocket::directives::{
    Admonition, Concat, Define, DirectiveKind, Dummy, Figure, FormattingMarker, Heading, Let,
    Link, RefDefDirective, Template, ThemeConfig, Version,
};
use rocket::evaluator::{Evaluator, Worker};
use rocket::page::{pairs_get, Slug};
use rocket::parse::Node;
use rocket::project::EVAL_FUEL;

fn node_string(s: &str) -> Node {
    Node::new_string(s, 0, -1)
}

fn node_children(nodes: Vec<Node>) -> Node {
    Node::new_children(nodes, 0, -1)
}

fn fresh_worker() -> Worker {
    Worker::new(Evaluator::new())
}

#[test]
fn mod_test_dummy() {
    let mut worker = fresh_worker();
    let handler = Dummy;

    assert_eq!(handler.handle(&mut worker, &[], EVAL_FUEL), Ok("".to_owned()));
    assert_eq!(
        handler.handle(&mut worker, &[node_string("")], EVAL_FUEL),
        Ok("".to_owned())
    );
    assert_eq!(
        handler.handle(
            &mut worker,
            &[node_children(vec![node_string("")])],
            EVAL_FUEL
        ),
        Ok("".to_owned())
    );
}

#[test]
fn mod_test_version() {
    let mut worker = fresh_worker();
    worker.register("concat", DirectiveKind::Concat(Concat));
    let handler = Version::new("3.4.0");

    assert_eq!(handler.handle(&mut worker, &[], EVAL_FUEL), Ok("3.4.0".to_owned()));
    assert_eq!(
        handler.handle(&mut worker, &[node_string("")], EVAL_FUEL),
        Ok("".to_owned())
    );
    assert_eq!(
        handler.handle(&mut worker, &[node_string("x")], EVAL_FUEL),
        Ok("3".to_owned())
    );
    assert_eq!(
        handler.handle(&mut worker, &[node_string("x.y")], EVAL_FUEL),
        Ok("3.4".to_owned())
    );

    assert_eq!(
        handler.handle(
            &mut worker,
            &[node_children(vec![
                node_string("concat"),
                node_string("3."),
                node_string("4"),
            ])],
            EVAL_FUEL
        ),
        Ok("3.4".to_owned())
    );
}

#[test]
fn mod_test_admonition() {
    let mut worker = fresh_worker();
    let handler = Admonition::new("note", "Note");

    assert!(handler.handle(&mut worker, &[], EVAL_FUEL).is_err());
    assert!(handler
        .handle(&mut worker, &[node_string("foo")], EVAL_FUEL)
        .is_ok());
}

#[test]
fn mod_test_concat() {
    let mut worker = fresh_worker();
    worker.register("version", DirectiveKind::Version(Version::new("3.4")));
    let handler = Concat;

    assert_eq!(handler.handle(&mut worker, &[], EVAL_FUEL), Ok("".to_owned()));
    assert_eq!(
        handler.handle(&mut worker, &[node_string("foo")], EVAL_FUEL),
        Ok("foo".to_owned())
    );
    assert_eq!(
        handler.handle(
            &mut worker,
            &[node_string("foo"), node_string("bar"), node_string("baz")],
            EVAL_FUEL
        ),
        Ok("foobarbaz".to_owned())
    );

    assert_eq!(
        handler.handle(
            &mut worker,
            &[
                node_children(vec![node_string("version")]),
                node_string("-test")
            ],
            EVAL_FUEL
        ),
        Ok("3.4-test".to_owned())
    );
}

#[test]
fn mod_test_template() {
    let mut worker = fresh_worker();
    let handler = Template::new(
        "[${0}](https://foxquill.com${1} \"${2}\")".to_owned(),
        vec!["^.+$".to_owned(), "^/.*$".to_owned()],
    );

    assert!(handler.handle(&mut worker, &[], EVAL_FUEL).is_err());
    assert_eq!(
        handler.handle(
            &mut worker,
            &[
                node_string("SIMD.js Rectangle Intersection"),
                node_string("/simd-rectangle-intersection/")
            ],
            EVAL_FUEL
        ),
        Ok("[SIMD.js Rectangle Intersection](https://foxquill.com/simd-rectangle-intersection/ \"\")"
            .to_owned())
    );
}

#[test]
fn mod_test_let() {
    let mut worker = fresh_worker();
    let handler = Let;

    worker.register("concat", DirectiveKind::Concat(Concat));

    assert!(handler.handle(&mut worker, &[], EVAL_FUEL).is_err());
    let result = handler.handle(
        &mut worker,
        &[
            node_children(vec![
                node_string("foo"),
                node_children(vec![
                    node_string("concat"),
                    node_string("1"),
                    node_string("2"),
                ]),
                node_string("bar"),
                node_string("3"),
            ]),
            node_children(vec![node_string("foo")]),
            node_children(vec![node_string("bar")]),
        ],
        EVAL_FUEL,
    );

    assert_eq!(result, Ok("123".to_owned()));
}

#[test]
fn mod_test_define() {
    let mut worker = fresh_worker();
    worker.register("concat", DirectiveKind::Concat(Concat));
    let handler = Define;

    assert_eq!(
        handler.handle(
            &mut worker,
            &[node_string("foo"), node_string("foo")],
            EVAL_FUEL
        ),
        Ok("".to_owned())
    );

    assert!(handler.handle(&mut worker, &[], EVAL_FUEL).is_err());
    assert_eq!(
        handler.handle(
            &mut worker,
            &[
                node_string("x"),
                node_children(vec![
                    node_string("concat"),
                    node_children(vec![node_string("foo")]),
                    node_string("bar"),
                ])
            ],
            EVAL_FUEL
        ),
        Ok("".to_owned())
    );

    assert_eq!(
        handler.handle(
            &mut worker,
            &[node_string("foo"), node_string("bar")],
            EVAL_FUEL
        ),
        Ok("".to_owned())
    );

    assert_eq!(
        handler.handle(
            &mut worker,
            &[
                node_string("evaluate"),
                node_string("eager"),
                node_children(vec![node_string("x")])
            ],
            EVAL_FUEL
        ),
        Ok("".to_owned())
    );

    assert_eq!(
        worker.lookup(&node_string(""), "x", &[], EVAL_FUEL).unwrap(),
        "barbar".to_owned()
    );

    assert_eq!(
        worker
            .lookup(&node_string(""), "eager", &[], EVAL_FUEL)
            .unwrap(),
        "barbar".to_owned()
    );

    assert_eq!(
        worker
            .lookup(&node_string(""), "foo", &[], EVAL_FUEL)
            .unwrap(),
        "bar".to_owned()
    );

    // Now change foo to make sure x changes but eager does not
    assert_eq!(
        handler.handle(
            &mut worker,
            &[node_string("foo"), node_string("baz")],
            EVAL_FUEL
        ),
        Ok("".to_owned())
    );

    assert_eq!(
        worker.lookup(&node_string(""), "x", &[], EVAL_FUEL).unwrap(),
        "bazbar".to_owned()
    );

    assert_eq!(
        worker
            .lookup(&node_string(""), "eager", &[], EVAL_FUEL)
            .unwrap(),
        "barbar".to_owned()
    );
}

#[test]
fn mod_test_theme_config() {
    let mut worker = fresh_worker();
    let handler = ThemeConfig;

    assert_eq!(handler.handle(&mut worker, &[], EVAL_FUEL), Ok("".to_owned()));
    assert_eq!(
        handler.handle(
            &mut worker,
            &[node_string("foo"), node_string("bar")],
            EVAL_FUEL
        ),
        Ok("".to_owned())
    );
    assert_eq!(
        pairs_get(&worker.theme_config, "foo"),
        Some(&"bar".to_owned())
    );
}

#[test]
fn mod_test_heading() {
    let mut worker = fresh_worker();
    worker.set_slug(Slug::new("index".to_owned()));
    let handler = Heading::new(2);

    assert!(handler.handle(&mut worker, &[], EVAL_FUEL).is_err());
    assert!(handler
        .handle(&mut worker, &[node_string("A Title")], EVAL_FUEL)
        .is_err());

    let handler = Heading::new(1);
    assert_eq!(
        handler.handle(
            &mut worker,
            &[node_string("a-title"), node_string("A Title")],
            EVAL_FUEL
        ),
        Ok("<section><h1 id=\"a-title\">A Title</h1>".to_owned())
    );

    let handler = Heading::new(2);
    assert_eq!(
        handler.handle(&mut worker, &[node_string("A Second Title")], EVAL_FUEL),
        Ok("<section><h2 id=\"a-second-title\">A Second Title</h2>".to_owned())
    );

    let handler = Heading::new(3);
    assert_eq!(
        handler.handle(&mut worker, &[node_string("A Third Title")], EVAL_FUEL),
        Ok("<section><h3 id=\"a-third-title\">A Third Title</h3>".to_owned())
    );

    let handler = Heading::new(1);
    assert_eq!(
        handler.handle(&mut worker, &[node_string("A Fourth Title")], EVAL_FUEL),
        Ok("</section></section><h1 id=\"a-fourth-title\">A Fourth Title</h1>".to_owned())
    );

    assert_eq!(worker.close_sections(), "</section>".to_owned());

    assert_eq!(
        worker.evaluator.find_refdef("a-title").unwrap().title,
        "A Title".to_owned()
    );
}

#[test]
fn mod_test_refdef() {
    let mut worker = fresh_worker();
    worker.set_slug(Slug::new("index".to_owned()));
    let handler = RefDefDirective;

    assert!(handler.handle(&mut worker, &[], EVAL_FUEL).is_err());
    assert!(handler
        .handle(&mut worker, &[node_string("a-title")], EVAL_FUEL)
        .is_err());
    assert_eq!(
        handler.handle(
            &mut worker,
            &[node_string("a-title"), node_string("A Title")],
            EVAL_FUEL
        ),
        Ok(String::new())
    );

    assert_eq!(
        worker.evaluator.find_refdef("a-title").unwrap().title,
        "A Title".to_owned()
    );
}

#[test]
fn test_figure() {
    let mut worker = fresh_worker();
    worker.set_slug(Slug::new("index".to_owned()));
    let handler = Figure;

    assert!(handler.handle(&mut worker, &[], EVAL_FUEL).is_err());
    assert!(handler
        .handle(&mut worker, &[node_string("foo.png")], EVAL_FUEL)
        .is_err());
    assert_eq!(
        handler.handle(
            &mut worker,
            &[node_string("fo\"o.png"), node_string("al\"t")],
            EVAL_FUEL
        ),
        Ok("<img src=\"_static/fo&#34;o.png\" alt=\"al&#34;t\">".to_owned())
    );
    assert_eq!(
        handler.handle(
            &mut worker,
            &[
                node_string("fo\"o.png"),
                node_string("al\"t"),
                node_string("320")
            ],
            EVAL_FUEL
        ),
        Ok("<img src=\"_static/fo&#34;o.png\" alt=\"al&#34;t\" width=320px>".to_owned())
    );

    worker.set_slug(Slug::new("reference/directives".to_owned()));
    assert_eq!(
        handler.handle(
            &mut worker,
            &[node_string("foo.png"), node_string("foo")],
            EVAL_FUEL
        ),
        Ok("<img src=\"../../_static/foo.png\" alt=\"foo\">".to_owned())
    );
}

#[test]
fn test_formatting_marker() {
    let mut worker = fresh_worker();
    worker.register("concat", DirectiveKind::Concat(Concat));

    let handler = FormattingMarker::new("strong");
    assert_eq!(
        handler.handle(&mut worker, &[], EVAL_FUEL),
        Ok("<strong></strong>".to_owned())
    );
    assert_eq!(
        handler.handle(
            &mut worker,
            &[node_string("foo"), node_string("bar")],
            EVAL_FUEL
        ),
        Ok("<strong>foo bar</strong>".to_owned())
    );
    assert_eq!(
        handler.handle(
            &mut worker,
            &[
                node_children(vec![
                    node_string("concat"),
                    node_string("1"),
                    node_string("2"),
                ]),
                node_string("bar")
            ],
            EVAL_FUEL
        ),
        Ok("<strong>12 bar</strong>".to_owned())
    );
}

#[test]
fn test_link() {
    let mut worker = fresh_worker();
    worker.register("concat", DirectiveKind::Concat(Concat));
    let handler = Link;
    assert!(handler.handle(&mut worker, &[], EVAL_FUEL).is_err());
    assert_eq!(
        handler.handle(&mut worker, &[node_string("https://foxquill.com")], EVAL_FUEL),
        Ok("<a href=\"https://foxquill.com\">https://foxquill.com</a>".to_owned())
    );

    assert_eq!(
        handler.handle(
            &mut worker,
            &[
                node_string("https://foxquill.com"),
                node_children(vec![
                    node_string("concat"),
                    node_string("foo"),
                    node_string("bar"),
                ]),
                node_string("baz")
            ],
            EVAL_FUEL
        ),
        Ok("<a href=\"https://foxquill.com\">foobar baz</a>".to_owned())
    );
}
