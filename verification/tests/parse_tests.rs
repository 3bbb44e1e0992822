//! Parser behavior over whole pages: empty input, quote merging, a
//! representative page mixing every construct, and unterminated blocks.

use rocket::parse::{Node, NodeValue, Parser};

fn rocket_block(args: Vec<Node>, lineno: i32) -> Node {
    let mut children = vec![Node::new_string("concat", 0, lineno)];
    for arg in args {
        children.push(arg);
    }
    Node::new_children(children, 0, lineno)
}

#[test]
fn parse_test_empty() {
    let mut parser = Parser::new();
    assert_eq!(parser.parse_string(0, ""), Ok(rocket_block(vec![], 0)));
}

#[test]
fn test_word_with_quotes() {
    let mut parser = Parser::new();

    assert!(parser
        .parse_string(
            0,
            "(:`` \":)\n(:h3 =>\n  \"Sally\":)"
        )
        .is_err());

    assert_eq!(
        parser.parse_string(0, "(:`` f\"oo ba\"r:)"),
        Ok(rocket_block(
            vec![Node::new_children(
                vec![
                    Node::new_string("``", 0, 0),
                    Node::new_string("foo bar", 0, 0),
                ],
                0,
                0,
            )],
            0
        ))
    );
}

#[test]
fn test_complex() {
    let mut parser = Parser::new();
    let src = "(:h1 Rocket:)

Rocket is a fast and powerful text markup format.

(:h2 (:ref writing-your-first-project \"Getting Started\":):)
(:h2 =>Example:)
(::code txt =>

    (:h1 Rocket:)

    Rocket is a fast and powerful text markup format.

    (:h2 (:ref writing-your-first-project \"Getting Started\":):)

\x20\x20\x20\x20

(:toctree
  \"reference\"
  \"tutorials\":)";

    let h1 = Node::new_children(
        vec![
            Node::new_string("h1", 0, 0),
            Node::new_string("Rocket", 0, 0),
        ],
        0,
        0,
    );
    let para1 = Node::new_string(
        "\n\nRocket is a fast and powerful text markup format.\n\n",
        0,
        4,
    );
    let h2_1 = Node::new_children(
        vec![
            Node::new_string("h2", 0, 4),
            Node::new_children(
                vec![
                    Node::new_string("ref", 0, 4),
                    Node::new_string("writing-your-first-project", 0, 4),
                    Node::new_string("Getting Started", 0, 4),
                ],
                0,
                4,
            ),
        ],
        0,
        4,
    );
    let h2_2 = Node::new_children(
        vec![
            Node::new_string("h2", 0, 5),
            Node::new_string("=>Example", 0, 5),
        ],
        0,
        5,
    );
    let code = Node::new_children(
        vec![
            Node::new_string("code", 0, 6),
            Node::new_string("txt", 0, 6),
            rocket_block(
                vec![Node::new_string(
                    "(:h1 Rocket:)\n\nRocket is a fast and powerful text markup format.\n\n(:h2 (:ref writing-your-first-project \"Getting Started\":):)\n\n",
                    0,
                    6,
                )],
                6,
            ),
        ],
        0,
        6,
    );
    let toctree = Node::new_children(
        vec![
            Node::new_string("toctree", 0, 16),
            Node::new_string("reference", 0, 17),
            Node::new_string("tutorials", 0, 18),
        ],
        0,
        16,
    );
    let result = rocket_block(
        vec![
            h1,
            para1,
            h2_1,
            Node::new_string("\n", 0, 5),
            h2_2,
            Node::new_string("\n", 0, 6),
            code,
            Node::new_string("\n\n", 0, 16),
            toctree,
        ],
        0,
    );
    assert_eq!(parser.parse_string(0, src), Ok(result));
}

#[test]
fn test_unmatched_block() {
    let mut parser = Parser::new();
    let err = parser.parse_string(0, "(:foo (:bar:)").unwrap_err();
    assert_eq!(err, "Unterminated block started on line 0");
}

#[test]
fn test_unterminated_block_reports_its_opening_line() {
    let mut parser = Parser::new();
    let err = parser.parse_string(0, "first line
(:note
more text").unwrap_err();
    assert_eq!(err, "Unterminated block started on line 1");

    // A block opener with no closing delimiter anywhere always fails.
    let mut parser = Parser::new();
    assert!(parser.parse_string(0, "(:foo bar").is_err());
}

#[test]
fn test_literal_page_is_single_text_argument() {
    let mut parser = Parser::new();
    let src = "plain text\nwith lines\n\nand a blank";
    let parsed = parser.parse_string(7, src).unwrap();
    match parsed.value {
        NodeValue::Children(children) => {
            assert_eq!(children.len(), 2);
            assert_eq!(children[0], Node::new_string("concat", 7, 0));
            assert_eq!(children[1], Node::new_string(src, 7, 0));
        }
        NodeValue::Owned(_) => panic!("root must be a block"),
    }
}
