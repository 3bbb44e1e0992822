//! The logic directives: the empty string is false, anything else true.

use rocket::directives::logic::{Equals, If, Not, NotEquals};
use rocket::directives::{Concat, DirectiveKind};
use rocket::evaluator::{Evaluator, Worker};
use rocket::parse::Node;
use rocket::project::EVAL_FUEL;

fn node_string(s: &str) -> Node {
    Node::new_string(s, 0, -1)
}

fn node_children(nodes: Vec<Node>) -> Node {
    Node::new_children(nodes, 0, -1)
}

fn worker_with_concat() -> Worker {
    let mut evaluator = Evaluator::new();
    evaluator.register_prelude("concat", DirectiveKind::Concat(Concat));
    Worker::new(evaluator)
}

#[test]
fn test_if() {
    let mut worker = worker_with_concat();
    let handler = If;

    assert!(handler.handle(&mut worker, &[], EVAL_FUEL).is_err());
    assert!(handler
        .handle(&mut worker, &[node_string("true")], EVAL_FUEL)
        .is_err());
    assert_eq!(
        handler.handle(
            &mut worker,
            &[node_string(""), node_string("true"), node_string("false")],
            EVAL_FUEL
        ),
        Ok("false".to_owned())
    );
    assert_eq!(
        handler.handle(
            &mut worker,
            &[
                node_children(vec![node_string("concat"), node_string("foobar")]),
                node_string("true"),
                node_string("false")
            ],
            EVAL_FUEL
        ),
        Ok("true".to_owned())
    );
    assert_eq!(
        handler.handle(
            &mut worker,
            &[
                node_children(vec![node_string("concat"), node_string("")]),
                node_string("true"),
                node_string("false")
            ],
            EVAL_FUEL
        ),
        Ok("false".to_owned())
    );
}

#[test]
fn test_not() {
    let mut worker = worker_with_concat();
    let handler = Not;

    assert!(handler.handle(&mut worker, &[], EVAL_FUEL).is_err());
    assert!(handler
        .handle(
            &mut worker,
            &[node_string("foo"), node_string("bar")],
            EVAL_FUEL
        )
        .is_err());
    assert_eq!(
        handler.handle(&mut worker, &[node_string("foo")], EVAL_FUEL),
        Ok("".to_owned())
    );
    assert_eq!(
        handler.handle(&mut worker, &[node_string("")], EVAL_FUEL),
        Ok("true".to_owned())
    );
    assert_eq!(
        handler.handle(
            &mut worker,
            &[node_children(vec![node_string("concat"), node_string("foo")])],
            EVAL_FUEL
        ),
        Ok("".to_owned())
    );
    assert_eq!(
        handler.handle(
            &mut worker,
            &[node_children(vec![node_string("concat"), node_string("")])],
            EVAL_FUEL
        ),
        Ok("true".to_owned())
    );
}

#[test]
fn test_equals() {
    let mut worker = worker_with_concat();
    let handler = Equals;

    assert!(handler.handle(&mut worker, &[], EVAL_FUEL).is_err());
    assert!(handler
        .handle(&mut worker, &[node_string("foo")], EVAL_FUEL)
        .is_err());
    assert_eq!(
        handler.handle(
            &mut worker,
            &[node_string("foo"), node_string("foo")],
            EVAL_FUEL
        ),
        Ok("true".to_owned())
    );
    assert_eq!(
        handler.handle(
            &mut worker,
            &[
                node_children(vec![node_string("concat"), node_string("foo")]),
                node_string("foo")
            ],
            EVAL_FUEL
        ),
        Ok("true".to_owned())
    );
    assert_eq!(
        handler.handle(
            &mut worker,
            &[
                node_string("foo"),
                node_children(vec![node_string("concat"), node_string("foo")])
            ],
            EVAL_FUEL
        ),
        Ok("true".to_owned())
    );
    assert_eq!(
        handler.handle(
            &mut worker,
            &[node_string("foo"), node_string("bar")],
            EVAL_FUEL
        ),
        Ok("".to_owned())
    );
}

#[test]
fn test_not_equals() {
    let mut worker = worker_with_concat();
    let handler = NotEquals;

    assert!(handler.handle(&mut worker, &[], EVAL_FUEL).is_err());
    assert!(handler
        .handle(&mut worker, &[node_string("foo")], EVAL_FUEL)
        .is_err());
    assert_eq!(
        handler.handle(
            &mut worker,
            &[node_string("foo"), node_string("foo")],
            EVAL_FUEL
        ),
        Ok("".to_owned())
    );
    assert_eq!(
        handler.handle(
            &mut worker,
            &[
                node_children(vec![node_string("concat"), node_string("foo")]),
                node_string("foo")
            ],
            EVAL_FUEL
        ),
        Ok("".to_owned())
    );
    assert_eq!(
        handler.handle(
            &mut worker,
            &[
                node_string("foo"),
                node_children(vec![node_string("concat"), node_string("foo")])
            ],
            EVAL_FUEL
        ),
        Ok("".to_owned())
    );
    assert_eq!(
        handler.handle(
            &mut worker,
            &[node_string("foo"), node_string("bar")],
            EVAL_FUEL
        ),
        Ok("true".to_owned())
    );
}
