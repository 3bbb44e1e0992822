//! The parser: a token stream to a tree of [`Node`]s, driven by an
//! explicit stack of handler states.
//!
//! Two handler kinds exist. A *rocket* state accumulates literal text (the
//! top of the stack starts as one, and one is entered after each rocket
//! marker); an *expression* state parses the whitespace-separated arguments
//! of a directive block. Inside an expression a bare `(` opens a plain
//! argument group — how a `let` binding list is written — and a bare `)`
//! is the degenerate depth-0 closer; in running text both stay literal, so
//! prose keeps its parentheses. A block closer whose colon depth does not
//! match the open expression is not an error: it is reproduced as literal
//! text, the same escaping symmetry the lexer gives openers. Handlers that
//! remain open at end of input are a parse error naming the line where the
//! unterminated block began.

use vstd::prelude::*;
use crate::lex::{lex, Token, TokenModel, token_model, tokens_model, spec_lex, tokens_all_text, tokens_text, spec_literal_only};
use crate::strutil::{push_char, str_is_whitespace, u64_to_dec};

verus! {

/// Identifies which source file a node came from, as an index into the
/// owning [`Parser`]'s file table.
pub type FileID = u32;

/// A node's payload: literal text, or the ordered children of a block.
#[derive(Debug, PartialEq)]
#[verifier::ext_equal]
pub enum NodeValue {
    Owned(String),
    Children(Vec<Node>),
}

/// One node of the parse tree. A block's first child, once evaluated,
/// names a directive or a bound variable; the remaining children are its
/// arguments. Every node carries its source file and line for diagnostics.
#[derive(Debug, PartialEq)]
#[verifier::ext_equal]
pub struct Node {
    pub value: NodeValue,
    pub file_id: FileID,
    pub lineno: i32,
}

impl Node {
    pub fn new(value: NodeValue, file_id: FileID, lineno: i32) -> (n: Node)
        ensures
            n == (Node { value, file_id, lineno }),
    {
        Node { value, file_id, lineno }
    }

    pub fn new_children(value: Vec<Node>, file_id: FileID, lineno: i32) -> (n: Node)
        ensures
            n == (Node { value: NodeValue::Children(value), file_id, lineno }),
    {
        Node { value: NodeValue::Children(value), file_id, lineno }
    }

    pub fn new_string(value: &str, file_id: FileID, lineno: i32) -> (n: Node)
        ensures
            n.value matches NodeValue::Owned(s) && s@ == value@,
            n.file_id == file_id,
            n.lineno == lineno,
    {
        Node { value: NodeValue::Owned(value.to_owned()), file_id, lineno }
    }
}

/// Structural equivalence of two nodes: same metadata, same text,
/// equivalent children. This is what tree contracts use in place of `==`,
/// which for heap-backed values says nothing useful.
pub open spec fn node_equiv(a: Node, b: Node) -> bool
    decreases a,
{
    &&& a.file_id == b.file_id
    &&& a.lineno == b.lineno
    &&& match (a.value, b.value) {
        (NodeValue::Owned(x), NodeValue::Owned(y)) => x@ == y@,
        (NodeValue::Children(xs), NodeValue::Children(ys)) => {
            &&& xs@.len() == ys@.len()
            &&& forall|i: int|
                0 <= i < xs@.len() ==> node_equiv(#[trigger] xs@[i], ys@[i])
        },
        _ => false,
    }
}

/// Deep copy of a node; the result is structurally equivalent to the
/// original.
pub fn clone_node(n: &Node) -> (r: Node)
    ensures
        node_equiv(r, *n),
    decreases *n,
{
    let value = match &n.value {
        NodeValue::Owned(s) => NodeValue::Owned(s.clone()),
        NodeValue::Children(children) => {
            let mut v: Vec<Node> = Vec::new();
            let mut i: usize = 0;
            while i < children.len()
                invariant
                    0 <= i <= children@.len(),
                    v@.len() == i,
                    forall|j: int| 0 <= j < i ==> node_equiv(#[trigger] v@[j], children@[j]),
                    n.value matches NodeValue::Children(cs) && cs@ == children@,
                decreases children@.len() - i,
            {
                v.push(clone_node(&children[i]));
                i += 1;
            }
            NodeValue::Children(v)
        },
    };
    Node { value, file_id: n.file_id, lineno: n.lineno }
}

/// `n` colons.
pub open spec fn spec_colons(n: nat) -> Seq<char>
    decreases n,
{
    if n == 0 {
        Seq::<char>::empty()
    } else {
        spec_colons((n - 1) as nat).push(':')
    }
}

/// The source text of a block opener at the given colon depth:
/// `(`, then `depth + 1` colons.
pub open spec fn spec_start_str(depth: nat) -> Seq<char> {
    seq!['('] + spec_colons(depth + 1)
}

/// The source text of a block closer at the given colon depth:
/// `depth + 1` colons, then `)`.
pub open spec fn spec_end_str(depth: nat) -> Seq<char> {
    spec_colons(depth + 1) + seq![')']
}

/// Append the opener text for `colon_depth` to `s`, character for
/// character.
pub fn push_start_expression_string(s: &mut String, colon_depth: u8)
    ensures
        final(s)@ == old(s)@ + spec_start_str(colon_depth as nat),
{
    push_char(s, '(');
    let mut k: usize = 0;
    while k < colon_depth as usize + 1
        invariant
            0 <= k <= colon_depth as usize + 1,
            s@ == old(s)@ + seq!['('] + spec_colons(k as nat),
        decreases colon_depth as usize + 1 - k,
    {
        push_char(s, ':');
        k += 1;
    }
    proof {
        assert(old(s)@ + seq!['('] + spec_colons((colon_depth + 1) as nat) =~= old(s)@
            + spec_start_str(colon_depth as nat));
    }
}

/// Append the closer text for `colon_depth` to `s`, character for
/// character.
pub fn push_end_expression_string(s: &mut String, colon_depth: u8)
    ensures
        final(s)@ == old(s)@ + spec_end_str(colon_depth as nat),
{
    let mut k: usize = 0;
    while k < colon_depth as usize + 1
        invariant
            0 <= k <= colon_depth as usize + 1,
            s@ == old(s)@ + spec_colons(k as nat),
        decreases colon_depth as usize + 1 - k,
    {
        push_char(s, ':');
        k += 1;
    }
    push_char(s, ')');
    proof {
        assert(old(s)@ + spec_colons((colon_depth + 1) as nat) + seq![')'] =~= old(s)@
            + spec_end_str(colon_depth as nat));
    }
}

/// A text-accumulation handler: the root of every page, and the body of
/// every rocket block. Collects literal text into `buffer`; finished text
/// becomes arguments of an implicit `concat` block.
pub struct StateRocket {
    pub colon_depth: u8,
    pub root: Vec<Node>,
    pub buffer: String,
    pub file_id: FileID,
    pub lineno: i32,
}

/// An expression handler: parses whitespace-separated arguments, merging
/// adjacent text, with quoted spans collected verbatim into one argument.
pub struct StateExpression {
    pub colon_depth: u8,
    pub root: Vec<Node>,
    pub file_id: FileID,
    pub lineno: i32,
    pub quote: String,
    pub quote_should_merge: bool,
    pub in_quote: bool,
    pub new_node: bool,
    /// A plain parenthesized argument group: closed only by a bare `)`.
    pub group: bool,
}

/// A parser stack entry.
pub enum ParseState {
    Rocket(StateRocket),
    Expression(StateExpression),
}

/// What a handler asks of the stack after seeing one token.
pub enum StackRequest {
    Keep,
    Pop(u8),
    Push(ParseState),
}

/// `n` is a text node holding exactly `text`, at the given source spot.
pub open spec fn is_text_node(n: Node, text: Seq<char>, file_id: FileID, lineno: i32) -> bool {
    &&& n.value matches NodeValue::Owned(s) && s@ == text
    &&& n.file_id == file_id
    &&& n.lineno == lineno
}

/// A freshly opened expression state.
pub open spec fn fresh_expression(
    e: StateExpression,
    depth: u8,
    group: bool,
    file_id: FileID,
    lineno: i32,
) -> bool {
    &&& e.colon_depth == depth
    &&& e.root@.len() == 0
    &&& e.file_id == file_id
    &&& e.lineno == lineno
    &&& e.quote@.len() == 0
    &&& !e.quote_should_merge
    &&& !e.in_quote
    &&& e.new_node
    &&& e.group == group
}

/// A freshly opened rocket state: its child list already holds the
/// implicit `concat` directive name.
pub open spec fn fresh_rocket(r: StateRocket, depth: u8, file_id: FileID, lineno: i32) -> bool {
    &&& r.colon_depth == depth
    &&& r.root@.len() == 1
    &&& is_text_node(r.root@[0], "concat"@, file_id, lineno)
    &&& r.buffer@.len() == 0
    &&& r.file_id == file_id
    &&& r.lineno == lineno
}

/// The child list `post` extends `pre` with the text `s`: merged into a
/// final text node when the previous token allowed it, pushed as a fresh
/// text node at `lineno` otherwise.
pub open spec fn add_text_rel(
    pre: StateExpression,
    post: Seq<Node>,
    s: Seq<char>,
    lineno: i32,
) -> bool {
    let can_merge = !pre.new_node && pre.root@.len() > 0 && pre.root@.last().value matches
        NodeValue::Owned(_);
    if can_merge {
        &&& post.len() == pre.root@.len()
        &&& post.subrange(0, post.len() - 1) == pre.root@.subrange(0, post.len() - 1)
        &&& match (post.last().value, pre.root@.last().value) {
            (NodeValue::Owned(x), NodeValue::Owned(y)) => x@ == y@ + s,
            _ => false,
        }
        &&& post.last().file_id == pre.root@.last().file_id
        &&& post.last().lineno == pre.root@.last().lineno
    } else {
        &&& post.len() == pre.root@.len() + 1
        &&& post.subrange(0, post.len() - 1) == pre.root@
        &&& is_text_node(post.last(), s, pre.file_id, lineno)
    }
}

/// The quoted span `pre.quote` becomes one literal argument: merged into a
/// final text node when permitted, pushed as a fresh node at `lineno`
/// otherwise.
pub open spec fn quote_close_rel(pre: StateExpression, post: Seq<Node>, lineno: i32) -> bool {
    let do_merge = pre.quote_should_merge && pre.root@.len() > 0 && pre.root@.last().value matches
        NodeValue::Owned(_);
    if do_merge {
        &&& post.len() == pre.root@.len()
        &&& post.subrange(0, post.len() - 1) == pre.root@.subrange(0, post.len() - 1)
        &&& match (post.last().value, pre.root@.last().value) {
            (NodeValue::Owned(x), NodeValue::Owned(y)) => x@ == y@ + pre.quote@,
            _ => false,
        }
        &&& post.last().file_id == pre.root@.last().file_id
        &&& post.last().lineno == pre.root@.last().lineno
    } else {
        &&& post.len() == pre.root@.len() + 1
        &&& post.subrange(0, post.len() - 1) == pre.root@
        &&& is_text_node(post.last(), pre.quote@, pre.file_id, lineno)
    }
}

/// The exact transition a rocket state makes on one token.
pub open spec fn rocket_step<'a>(
    pre: StateRocket,
    post: StateRocket,
    t: Token<'a>,
    r: StackRequest,
) -> bool {
    &&& post.colon_depth == pre.colon_depth
    &&& post.file_id == pre.file_id
    &&& post.lineno == pre.lineno
    &&& match t {
        Token::Text(_, s) => {
            &&& post.buffer@ == pre.buffer@ + s@
            &&& post.root@ == pre.root@
            &&& r is Keep
        },
        Token::Quote(_) => {
            &&& post.buffer@ == pre.buffer@.push('"')
            &&& post.root@ == pre.root@
            &&& r is Keep
        },
        Token::Rocket(_) => {
            &&& post.buffer@ == pre.buffer@ + "=>"@
            &&& post.root@ == pre.root@
            &&& r is Keep
        },
        Token::RightParen(d) => {
            &&& post.buffer@ == pre.buffer@ + spec_end_str(d as nat)
            &&& post.root@ == pre.root@
            &&& r is Keep
        },
        Token::GroupOpen(_) => {
            &&& post.buffer@ == pre.buffer@.push('(')
            &&& post.root@ == pre.root@
            &&& r is Keep
        },
        Token::GroupClose => {
            &&& post.buffer@ == pre.buffer@.push(')')
            &&& post.root@ == pre.root@
            &&& r is Keep
        },
        Token::StartBlock(line, d) => {
            if d < pre.colon_depth {
                &&& post.buffer@ == pre.buffer@ + spec_start_str(d as nat)
                &&& post.root@ == pre.root@
                &&& r is Keep
            } else {
                &&& post.buffer@.len() == 0
                &&& if pre.buffer@.len() == 0 {
                    post.root@ == pre.root@
                } else {
                    &&& post.root@.len() == pre.root@.len() + 1
                    &&& post.root@.subrange(0, pre.root@.len() as int) == pre.root@
                    &&& is_text_node(post.root@.last(), pre.buffer@, pre.file_id, line)
                }
                &&& r matches StackRequest::Push(st) && st matches ParseState::Expression(e)
                    && fresh_expression(e, d, false, pre.file_id, line)
            }
        },
        Token::Dedent => {
            &&& post.buffer@ == pre.buffer@
            &&& post.root@ == pre.root@
            &&& r matches StackRequest::Pop(n) && n == 2
        },
    }
}

/// The exact transition an expression state makes on one token.
pub open spec fn expression_step<'a>(
    pre: StateExpression,
    post: StateExpression,
    t: Token<'a>,
    r: StackRequest,
) -> bool {
    &&& post.colon_depth == pre.colon_depth
    &&& post.file_id == pre.file_id
    &&& post.lineno == pre.lineno
    &&& if pre.in_quote {
        &&& r is Keep
        &&& match t {
            Token::Text(_, s) => post == StateExpression { quote: post.quote, ..pre }
                && post.quote@ == pre.quote@ + s@,
            Token::StartBlock(_, d) => post == StateExpression { quote: post.quote, ..pre }
                && post.quote@ == pre.quote@ + spec_start_str(d as nat),
            Token::RightParen(d) => post == StateExpression { quote: post.quote, ..pre }
                && post.quote@ == pre.quote@ + spec_end_str(d as nat),
            Token::Rocket(_) => post == StateExpression { quote: post.quote, ..pre }
                && post.quote@ == pre.quote@ + "=>"@,
            Token::GroupOpen(_) => post == StateExpression { quote: post.quote, ..pre }
                && post.quote@ == pre.quote@.push('('),
            Token::GroupClose => post == StateExpression { quote: post.quote, ..pre }
                && post.quote@ == pre.quote@.push(')'),
            Token::Quote(line) => {
                &&& quote_close_rel(pre, post.root@, line)
                &&& post.quote@.len() == 0
                &&& !post.in_quote
                &&& !post.quote_should_merge
                &&& post.new_node == pre.new_node
            },
            Token::Dedent => post == pre,
        }
    } else {
        match t {
            Token::Text(line, s) => {
                &&& r is Keep
                &&& if s@.len() > 0 && crate::strutil::spec_all_space(s@) {
                    post == StateExpression {
                        new_node: true,
                        quote_should_merge: false,
                        ..pre
                    }
                } else {
                    &&& add_text_rel(pre, post.root@, s@, line)
                    &&& !post.new_node
                    &&& post.quote_should_merge
                    &&& post.quote@ == pre.quote@
                    &&& post.in_quote == pre.in_quote
                }
            },
            Token::Quote(_) => {
                &&& r is Keep
                &&& post == StateExpression { in_quote: true, ..pre }
            },
            Token::StartBlock(line, d) => {
                &&& post == pre
                &&& r matches StackRequest::Push(st) && st matches ParseState::Expression(e)
                    && fresh_expression(e, d, false, pre.file_id, line)
            },
            Token::GroupOpen(line) => {
                &&& post == pre
                &&& r matches StackRequest::Push(st) && st matches ParseState::Expression(e)
                    && fresh_expression(e, pre.colon_depth, true, pre.file_id, line)
            },
            Token::GroupClose => {
                if pre.group || pre.colon_depth == 0 {
                    &&& post == pre
                    &&& r matches StackRequest::Pop(n) && n == 1
                } else {
                    &&& r is Keep
                    &&& add_text_rel(pre, post.root@, seq![')'], pre.lineno)
                    &&& !post.new_node
                    &&& post.quote_should_merge
                    &&& post.quote@ == pre.quote@
                    &&& post.in_quote == pre.in_quote
                }
            },
            Token::Rocket(line) => {
                &&& post == pre
                &&& r matches StackRequest::Push(st) && st matches ParseState::Rocket(rk)
                    && fresh_rocket(rk, pre.colon_depth, pre.file_id, line)
            },
            Token::RightParen(d) => {
                if !pre.group && d == pre.colon_depth {
                    &&& post == pre
                    &&& r matches StackRequest::Pop(n) && n == 1
                } else {
                    &&& r is Keep
                    &&& add_text_rel(pre, post.root@, spec_end_str(d as nat), pre.lineno)
                    &&& !post.new_node
                    &&& post.quote_should_merge
                    &&& post.quote@ == pre.quote@
                    &&& post.in_quote == pre.in_quote
                }
            },
            Token::Dedent => {
                &&& post == pre
                &&& r matches StackRequest::Pop(n) && n == 1
            },
        }
    }
}

impl StateRocket {
    pub fn new(colon_depth: u8, file_id: FileID, lineno: i32) -> (r: StateRocket)
        ensures
            fresh_rocket(r, colon_depth, file_id, lineno),
    {
        let mut root: Vec<Node> = Vec::new();
        root.push(Node::new_string("concat", file_id, lineno));
        proof {
            reveal_strlit("concat");
        }
        StateRocket { colon_depth, root, buffer: String::new(), file_id, lineno }
    }

    /// Feed one token; the returned request tells the stack what to do.
    pub fn handle_token<'a>(&mut self, token: &Token<'a>) -> (r: StackRequest)
        ensures
            rocket_step(*old(self), *final(self), *token, r),
    {
        match *token {
            Token::Text(_, s) => {
                self.buffer.append(s);
                StackRequest::Keep
            },
            Token::Quote(_) => {
                push_char(&mut self.buffer, '"');
                StackRequest::Keep
            },
            Token::Rocket(_) => {
                self.buffer.append("=>");
                proof {
                    reveal_strlit("=>");
                }
                StackRequest::Keep
            },
            Token::RightParen(d) => {
                push_end_expression_string(&mut self.buffer, d);
                StackRequest::Keep
            },
            Token::GroupOpen(_) => {
                push_char(&mut self.buffer, '(');
                StackRequest::Keep
            },
            Token::GroupClose => {
                push_char(&mut self.buffer, ')');
                StackRequest::Keep
            },
            Token::StartBlock(lineno, d) => {
                if d < self.colon_depth {
                    push_start_expression_string(&mut self.buffer, d);
                    StackRequest::Keep
                } else {
                    if !self.buffer.as_str().is_empty() {
                        let text = self.buffer.clone();
                        self.buffer = String::new();
                        self.root.push(
                            Node::new_string(text.as_str(), self.file_id, lineno),
                        );
                        proof {
                            assert(self.root@.subrange(0, old(self).root@.len() as int)
                                =~= old(self).root@);
                        }
                    }
                    StackRequest::Push(
                        ParseState::Expression(
                            StateExpression::new(d, false, self.file_id, lineno),
                        ),
                    )
                }
            },
            Token::Dedent => StackRequest::Pop(2),
        }
    }

    /// Close the handler: any remaining buffered text becomes a final
    /// argument, and the collected children become one block node.
    pub fn finish(self) -> (n: Node)
        ensures
            n.file_id == self.file_id,
            n.lineno == self.lineno,
            n.value matches NodeValue::Children(c) && {
                if self.buffer@.len() == 0 {
                    c@ == self.root@
                } else {
                    &&& c@.len() == self.root@.len() + 1
                    &&& c@.subrange(0, self.root@.len() as int) == self.root@
                    &&& is_text_node(c@.last(), self.buffer@, self.file_id, self.lineno)
                }
            },
    {
        let StateRocket { colon_depth: _, mut root, buffer, file_id, lineno } = self;
        if !buffer.as_str().is_empty() {
            root.push(Node::new_string(buffer.as_str(), file_id, lineno));
            proof {
                assert(root@.subrange(0, self.root@.len() as int) =~= self.root@);
            }
        }
        Node::new_children(root, file_id, lineno)
    }

    /// Attach a finished child node.
    pub fn push(&mut self, node: Node)
        ensures
            final(self).root@ == old(self).root@.push(node),
            final(self).buffer == old(self).buffer,
            final(self).colon_depth == old(self).colon_depth,
            final(self).file_id == old(self).file_id,
            final(self).lineno == old(self).lineno,
    {
        self.root.push(node);
    }
}

impl StateExpression {
    pub fn new(colon_depth: u8, group: bool, file_id: FileID, lineno: i32) -> (r:
        StateExpression)
        ensures
            fresh_expression(r, colon_depth, group, file_id, lineno),
    {
        StateExpression {
            colon_depth,
            root: Vec::new(),
            file_id,
            lineno,
            quote: String::new(),
            quote_should_merge: false,
            in_quote: false,
            new_node: true,
            group,
        }
    }

    /// Add literal text as an argument, merging with a preceding literal
    /// argument unless a separator intervened.
    pub fn add_text(&mut self, lineno: i32, s: &str)
        ensures
            add_text_rel(*old(self), final(self).root@, s@, lineno),
            !final(self).new_node,
            final(self).quote_should_merge,
            final(self).quote == old(self).quote,
            final(self).in_quote == old(self).in_quote,
            final(self).colon_depth == old(self).colon_depth,
            final(self).file_id == old(self).file_id,
            final(self).lineno == old(self).lineno,
    {
        self.quote_should_merge = true;
        let can_merge = !self.new_node && self.root.len() > 0 && matches!(
            self.root[self.root.len() - 1].value,
            NodeValue::Owned(_),
        );
        if can_merge {
            let idx = self.root.len() - 1;
            let mut last = self.root.pop().unwrap();
            match &mut last.value {
                NodeValue::Owned(v) => {
                    v.append(s);
                },
                NodeValue::Children(_) => {},
            }
            self.root.push(last);
            proof {
                assert(self.root@.subrange(0, self.root@.len() - 1) =~= old(
                    self,
                ).root@.subrange(0, self.root@.len() - 1));
            }
        } else {
            self.root.push(Node::new_string(s, self.file_id, lineno));
            proof {
                assert(self.root@.subrange(0, self.root@.len() - 1) =~= old(self).root@);
            }
        }
        self.new_node = false;
    }

    /// Feed one token; the returned request tells the stack what to do.
    pub fn handle_token<'a>(&mut self, token: &Token<'a>) -> (r: StackRequest)
        ensures
            expression_step(*old(self), *final(self), *token, r),
    {
        if self.in_quote {
            match *token {
                Token::Text(_, s) => {
                    self.quote.append(s);
                },
                Token::Quote(lineno) => {
                    let do_merge = self.quote_should_merge && self.root.len() > 0 && matches!(
                        self.root[self.root.len() - 1].value,
                        NodeValue::Owned(_),
                    );
                    if do_merge {
                        let mut last = self.root.pop().unwrap();
                        match &mut last.value {
                            NodeValue::Owned(v) => {
                                v.append(self.quote.as_str());
                            },
                            NodeValue::Children(_) => {},
                        }
                        self.root.push(last);
                        proof {
                            assert(self.root@.subrange(0, self.root@.len() - 1) =~= old(
                                self,
                            ).root@.subrange(0, self.root@.len() - 1));
                        }
                    } else {
                        self.root.push(
                            Node::new_string(self.quote.as_str(), self.file_id, lineno),
                        );
                        proof {
                            assert(self.root@.subrange(0, self.root@.len() - 1) =~= old(
                                self,
                            ).root@);
                        }
                    }
                    self.quote_should_merge = false;
                    self.in_quote = false;
                    self.quote = String::new();
                },
                Token::StartBlock(_, d) => {
                    push_start_expression_string(&mut self.quote, d);
                },
                Token::RightParen(d) => {
                    push_end_expression_string(&mut self.quote, d);
                },
                Token::Rocket(_) => {
                    self.quote.append("=>");
                    proof {
                        reveal_strlit("=>");
                    }
                },
                Token::GroupOpen(_) => {
                    push_char(&mut self.quote, '(');
                },
                Token::GroupClose => {
                    push_char(&mut self.quote, ')');
                },
                Token::Dedent => {},
            }
            return StackRequest::Keep;
        }
        match *token {
            Token::Text(lineno, s) => {
                if str_is_whitespace(s) {
                    self.new_node = true;
                    self.quote_should_merge = false;
                } else {
                    self.add_text(lineno, s);
                }
                StackRequest::Keep
            },
            Token::Quote(_) => {
                self.in_quote = true;
                StackRequest::Keep
            },
            Token::StartBlock(lineno, d) => StackRequest::Push(
                ParseState::Expression(StateExpression::new(d, false, self.file_id, lineno)),
            ),
            Token::GroupOpen(lineno) => StackRequest::Push(
                ParseState::Expression(
                    StateExpression::new(self.colon_depth, true, self.file_id, lineno),
                ),
            ),
            Token::GroupClose => {
                if self.group || self.colon_depth == 0 {
                    StackRequest::Pop(1)
                } else {
                    let lineno = self.lineno;
                    self.add_text(lineno, ")");
                    proof {
                        reveal_strlit(")");
                        assert(")"@ =~= seq![')']);
                    }
                    StackRequest::Keep
                }
            },
            Token::Rocket(lineno) => StackRequest::Push(
                ParseState::Rocket(StateRocket::new(self.colon_depth, self.file_id, lineno)),
            ),
            Token::RightParen(d) => {
                if !self.group && d == self.colon_depth {
                    StackRequest::Pop(1)
                } else {
                    let mut s = String::new();
                    push_end_expression_string(&mut s, d);
                    let lineno = self.lineno;
                    self.add_text(lineno, s.as_str());
                    proof {
                        assert(Seq::<char>::empty() + spec_end_str(d as nat) =~= spec_end_str(
                            d as nat,
                        ));
                    }
                    StackRequest::Keep
                }
            },
            Token::Dedent => StackRequest::Pop(1),
        }
    }

    /// Close the handler: the collected arguments become one block node.
    pub fn finish(self) -> (n: Node)
        ensures
            n.file_id == self.file_id,
            n.lineno == self.lineno,
            n.value matches NodeValue::Children(c) && c@ == self.root@,
    {
        let StateExpression { root, file_id, lineno, .. } = self;
        Node::new_children(root, file_id, lineno)
    }

    /// Attach a finished child node.
    pub fn push(&mut self, node: Node)
        ensures
            final(self).root@ == old(self).root@.push(node),
            final(self).colon_depth == old(self).colon_depth,
            final(self).file_id == old(self).file_id,
            final(self).lineno == old(self).lineno,
            final(self).quote == old(self).quote,
            final(self).quote_should_merge == old(self).quote_should_merge,
            final(self).in_quote == old(self).in_quote,
            final(self).new_node == old(self).new_node,
    {
        self.root.push(node);
    }
}

/// A block opened at colon depth `n` is closed only by a closer of depth
/// `n`: a closer of any other depth never pops the expression, and is
/// instead reproduced as literal text — exactly the closer's source
/// characters, `depth + 1` colons and a parenthesis. A plain argument
/// group is closed only by a bare `)`; fenced closers inside it are
/// likewise inert and literal, and a stray bare `)` in an ordinary
/// expression is reproduced as the single character it was.
pub proof fn lemma_closer_depth<'a>(
    pre: StateExpression,
    post: StateExpression,
    d: u8,
    r: StackRequest,
)
    requires
        !pre.in_quote,
        expression_step(pre, post, Token::RightParen::<'a>(d), r),
    ensures
        (r matches StackRequest::Pop(k) && k == 1) <==> (!pre.group && d == pre.colon_depth),
        (!pre.group && d == pre.colon_depth) ==> post == pre,
        (pre.group || d != pre.colon_depth) ==> r is Keep && add_text_rel(
            pre,
            post.root@,
            spec_end_str(d as nat),
            pre.lineno,
        ),
{
}

/// The bare-parenthesis counterpart of [`lemma_closer_depth`]: a bare `)`
/// is the degenerate depth-0 closer. It closes a plain argument group and
/// a block fenced at depth 0; inside a deeper fence it is inert and
/// reproduced, character for character, as the literal `)`.
pub proof fn lemma_group_close<'a>(pre: StateExpression, post: StateExpression, r: StackRequest)
    requires
        !pre.in_quote,
        expression_step(pre, post, Token::GroupClose::<'a>, r),
    ensures
        (r matches StackRequest::Pop(k) && k == 1) <==> (pre.group || pre.colon_depth == 0),
        (pre.group || pre.colon_depth == 0) ==> post == pre,
        !(pre.group || pre.colon_depth == 0) ==> r is Keep && add_text_rel(
            pre,
            post.root@,
            seq![')'],
            pre.lineno,
        ),
{
}

/// The state a finished handler collapses to: its collected children as
/// one block node, with any final rocket text flushed.
pub open spec fn finished_rel(st: ParseState, n: Node) -> bool {
    match st {
        ParseState::Rocket(rk) => {
            &&& n.file_id == rk.file_id
            &&& n.lineno == rk.lineno
            &&& n.value matches NodeValue::Children(c) && {
                if rk.buffer@.len() == 0 {
                    c@ == rk.root@
                } else {
                    &&& c@.len() == rk.root@.len() + 1
                    &&& c@.subrange(0, rk.root@.len() as int) == rk.root@
                    &&& is_text_node(c@.last(), rk.buffer@, rk.file_id, rk.lineno)
                }
            }
        },
        ParseState::Expression(e) => {
            &&& n.file_id == e.file_id
            &&& n.lineno == e.lineno
            &&& n.value matches NodeValue::Children(c) && c@ == e.root@
        },
    }
}

fn finish_state(st: ParseState) -> (n: Node)
    ensures
        finished_rel(st, n),
{
    match st {
        ParseState::Rocket(rk) => rk.finish(),
        ParseState::Expression(e) => e.finish(),
    }
}

fn push_node_state(st: &mut ParseState, node: Node)
    ensures
        match (*old(st), *final(st)) {
            (ParseState::Rocket(pre), ParseState::Rocket(post)) => {
                &&& post.root@ == pre.root@.push(node)
                &&& post.buffer == pre.buffer
                &&& post.colon_depth == pre.colon_depth
                &&& post.file_id == pre.file_id
                &&& post.lineno == pre.lineno
            },
            (ParseState::Expression(pre), ParseState::Expression(post)) => {
                &&& post.root@ == pre.root@.push(node)
                &&& post.colon_depth == pre.colon_depth
                &&& post.file_id == pre.file_id
                &&& post.lineno == pre.lineno
                &&& post.quote == pre.quote
                &&& post.quote_should_merge == pre.quote_should_merge
                &&& post.in_quote == pre.in_quote
                &&& post.new_node == pre.new_node
            },
            _ => false,
        },
{
    match st {
        ParseState::Rocket(rk) => rk.push(node),
        ParseState::Expression(e) => e.push(node),
    }
}

/// The bottom of the parse stack: the page's root text accumulator.
pub open spec fn bottom_ok(st: ParseState, id: FileID) -> bool {
    st matches ParseState::Rocket(rk) && rk.colon_depth == 0 && rk.file_id == id && rk.lineno == 0
        && rk.root@.len() >= 1 && is_text_node(rk.root@[0], "concat"@, id, 0)
}

/// The line a parse frame was opened at.
pub open spec fn frame_lineno(st: ParseState) -> int {
    match st {
        ParseState::Rocket(rk) => rk.lineno as int,
        ParseState::Expression(e) => e.lineno as int,
    }
}

/// A token that opens a handler, carrying the line it stood on.
pub open spec fn spec_opener_at(t: TokenModel, l: int) -> bool {
    ||| t matches TokenModel::StartBlock(line, _) && line == l
    ||| t matches TokenModel::GroupOpen(line) && line == l
    ||| t matches TokenModel::Rocket(line) && line == l
}

/// A token that can close a handler: a depth-carrying closer, the bare
/// group closer, or a dedent.
pub open spec fn spec_closer(t: TokenModel) -> bool {
    ||| t matches TokenModel::RightParen(_)
    ||| t is GroupClose
    ||| t is Dedent
}

/// Owns the file table that node [`FileID`]s refer to, and runs the
/// handler stack over a token stream.
pub struct Parser {
    file_ids: Vec<String>,
}

impl View for Parser {
    type V = Seq<Seq<char>>;

    closed spec fn view(&self) -> Seq<Seq<char>> {
        self.file_ids@.map_values(|s: String| s@)
    }
}

impl Parser {
    pub fn new() -> (p: Parser)
        ensures
            p@.len() == 0,
    {
        Parser { file_ids: Vec::new() }
    }

    /// The source path recorded for the file `node` came from.
    pub fn get_node_source_path<'s>(&'s self, node: &Node) -> (r: Option<&'s String>)
        ensures
            match r {
                Some(p) => (node.file_id as int) < self@.len() && p@ == self@[node.file_id as int],
                None => (node.file_id as int) >= self@.len(),
            },
    {
        if (node.file_id as usize) < self.file_ids.len() {
            Some(&self.file_ids[node.file_id as usize])
        } else {
            None
        }
    }

    /// Register `path` in the file table and parse `data` as its content.
    pub fn parse_source(&mut self, path: &str, data: &str) -> (r: Result<Node, String>)
        ensures
            old(self)@.len() < u32::MAX ==> final(self)@ == old(self)@.push(path@),
            match r {
                Ok(n) => {
                    &&& n.lineno == 0
                    &&& n.value matches NodeValue::Children(c) && c@.len() >= 1 && is_text_node(
                        c@[0],
                        "concat"@,
                        n.file_id,
                        0,
                    )
                },
                Err(m) => old(self)@.len() < u32::MAX ==> (!spec_literal_only(data@) && (exists|
                    l: int,
                    i: int,
                |
                    0 <= i < spec_lex(data@).len() && spec_opener_at(spec_lex(data@)[i], l) && m@
                        == "Unterminated block started on line "@
                        + crate::strutil::spec_dec_digits((if l >= 0 {
                        l
                    } else {
                        0
                    }) as nat))),
            },
            (old(self)@.len() < u32::MAX && (exists|i: int|
                0 <= i < spec_lex(data@).len() && (#[trigger] spec_lex(data@)[i]) matches
                    TokenModel::StartBlock(..)) && (forall|i: int|
                0 <= i < spec_lex(data@).len() ==> !spec_closer(#[trigger] spec_lex(data@)[i]) && !(
                spec_lex(data@)[i] matches TokenModel::Quote(_)))) ==> r is Err,
            (old(self)@.len() < u32::MAX && spec_literal_only(data@)) ==> (r matches Ok(n) && (
            n.value matches NodeValue::Children(c) && (data@.len() == 0 ==> c@.len() == 1) && (
            data@.len() > 0 ==> c@.len() == 2 && is_text_node(c@[1], data@, n.file_id, 0)))),
    {
        if self.file_ids.len() < u32::MAX as usize {
            let id = self.file_ids.len() as u32;
            self.file_ids.push(path.to_owned());
            proof {
                assert(self@ =~= old(self)@.push(path@));
            }
            self.parse_string(id, data)
        } else {
            Err(String::from_str("Too many source files"))
        }
    }

    /// Parse one page. The result is the root block: an implicit `concat`
    /// invocation whose arguments are the page's top-level pieces. Input
    /// that holds none of the delimiter characters parses to exactly that
    /// text as the single argument. A handler left open at end of input is
    /// an error naming the line where the unterminated block began.
    pub fn parse_string(&mut self, id: FileID, data: &str) -> (r: Result<Node, String>)
        ensures
            final(self)@ == old(self)@,
            match r {
                Ok(n) => {
                    &&& n.file_id == id
                    &&& n.lineno == 0
                    &&& n.value matches NodeValue::Children(c) && c@.len() >= 1 && is_text_node(
                        c@[0],
                        "concat"@,
                        id,
                        0,
                    )
                },
                Err(m) => !spec_literal_only(data@) && (exists|l: int, i: int|
                    0 <= i < spec_lex(data@).len() && spec_opener_at(spec_lex(data@)[i], l) && m@
                        == "Unterminated block started on line "@
                        + crate::strutil::spec_dec_digits((if l >= 0 {
                        l
                    } else {
                        0
                    }) as nat)),
            },
            spec_literal_only(data@) ==> (r matches Ok(n) && (n.value matches NodeValue::Children(
                c,
            ) && (data@.len() == 0 ==> c@.len() == 1) && (data@.len() > 0 ==> c@.len() == 2
                && is_text_node(c@[1], data@, id, 0)))),
            ((exists|i: int|
                0 <= i < spec_lex(data@).len() && (#[trigger] spec_lex(data@)[i]) matches
                    TokenModel::StartBlock(..)) && (forall|i: int|
                0 <= i < spec_lex(data@).len() ==> !spec_closer(#[trigger] spec_lex(data@)[i]) && !(
                spec_lex(data@)[i] matches TokenModel::Quote(_)))) ==> r is Err,
    {
        let tokens = lex(data);
        let mut stack: Vec<ParseState> = Vec::new();
        stack.push(ParseState::Rocket(StateRocket::new(0, id, 0)));
        proof {
            reveal_strlit("concat");
        }
        let n = tokens.len();
        let mut ti: usize = 0;
        while ti < n
            invariant
                0 <= ti <= n,
                n == tokens@.len(),
                is_subseq_of_tokens(tokens@, data@),
                tokens_model(tokens@) == spec_lex(data@),
                stack@.len() >= 1,
                bottom_ok(stack@[0], id),
                spec_literal_only(data@) ==> {
                    &&& stack@.len() == 1
                    &&& stack@[0] matches ParseState::Rocket(rk) && rk.root@.len() == 1
                        && rk.buffer@ == tokens_text(tokens@.subrange(0, ti as int))
                },
                forall|fi: int|
                    1 <= fi < stack@.len() ==> exists|i: int|
                        0 <= i < ti && spec_opener_at(
                            token_model(tokens@[i]),
                            frame_lineno(#[trigger] stack@[fi]),
                        ),
                ((exists|i: int|
                    0 <= i < ti && token_model(#[trigger] tokens@[i]) matches
                        TokenModel::StartBlock(..)) && (forall|i: int|
                    0 <= i < ti ==> !spec_closer(token_model(#[trigger] tokens@[i])) && !(
                    token_model(tokens@[i]) matches TokenModel::Quote(_)))) ==> stack@.len() >= 2,
            decreases n - ti,
        {
            let ghost stack0 = stack@;
            let token = &tokens[ti];
            proof {
                assert(*token == tokens@[ti as int]);
                if spec_literal_only(data@) {
                    assert(tokens@[ti as int] matches Token::Text(..));
                    assert(tokens@.subrange(0, ti + 1int).drop_last() =~= tokens@.subrange(
                        0,
                        ti as int,
                    ));
                    assert(tokens@.subrange(0, ti + 1int).last() == tokens@[ti as int]);
                }
            }
            let top = stack.pop().unwrap();
            let (st, req) = match top {
                ParseState::Rocket(mut rk) => {
                    let q = rk.handle_token(token);
                    (ParseState::Rocket(rk), q)
                },
                ParseState::Expression(mut e) => {
                    let q = e.handle_token(token);
                    (ParseState::Expression(e), q)
                },
            };
            proof {
                if stack@.len() == 0 {
                    assert(bottom_ok(st, id));
                }
                assert(frame_lineno(st) == frame_lineno(stack0[stack0.len() - 1]));
            }
            stack.push(st);
            match req {
                StackRequest::Keep => {
                    proof {
                        // The bottom rocket handler sits at colon depth
                        // zero, so a block opener there always pushes:
                        // a kept opener can only happen deeper down.
                        if stack0.len() == 1 && (tokens@[ti as int] matches Token::StartBlock(
                            ..
                        )) {
                            assert(false);
                        }
                        assert forall|fi: int| 1 <= fi < stack@.len() implies exists|i: int|
                            0 <= i < ti + 1 && spec_opener_at(
                                token_model(tokens@[i]),
                                frame_lineno(#[trigger] stack@[fi]),
                            ) by {
                            assert(frame_lineno(stack@[fi]) == frame_lineno(stack0[fi]));
                            let w = choose|i: int|
                                0 <= i < ti && spec_opener_at(
                                    token_model(tokens@[i]),
                                    frame_lineno(stack0[fi]),
                                );
                            assert(0 <= w < ti + 1 && spec_opener_at(
                                token_model(tokens@[w]),
                                frame_lineno(stack@[fi]),
                            ));
                        }
                    }
                },
                StackRequest::Push(new_state) => {
                    proof {
                        assert(spec_opener_at(
                            token_model(tokens@[ti as int]),
                            frame_lineno(new_state),
                        ));
                    }
                    stack.push(new_state);
                    proof {
                        assert forall|fi: int| 1 <= fi < stack@.len() implies exists|i: int|
                            0 <= i < ti + 1 && spec_opener_at(
                                token_model(tokens@[i]),
                                frame_lineno(#[trigger] stack@[fi]),
                            ) by {
                            if fi < stack@.len() - 1 {
                                assert(frame_lineno(stack@[fi]) == frame_lineno(stack0[fi]));
                                let w = choose|i: int|
                                    0 <= i < ti && spec_opener_at(
                                        token_model(tokens@[i]),
                                        frame_lineno(stack0[fi]),
                                    );
                                assert(0 <= w < ti + 1 && spec_opener_at(
                                    token_model(tokens@[w]),
                                    frame_lineno(stack@[fi]),
                                ));
                            } else {
                                assert(stack@[fi] == new_state);
                                assert(0 <= ti < ti + 1 && spec_opener_at(
                                    token_model(tokens@[ti as int]),
                                    frame_lineno(stack@[fi]),
                                ));
                            }
                        }
                    }
                },
                StackRequest::Pop(k0) => {
                    proof {
                        assert(spec_closer(token_model(tokens@[ti as int])));
                    }
                    let mut k = k0;
                    while k > 0 && stack.len() > 1
                        invariant
                            stack@.len() >= 1,
                            bottom_ok(stack@[0], id),
                            n == tokens@.len(),
                            ti < n,
                            spec_closer(token_model(tokens@[ti as int])),
                            forall|fi: int|
                                1 <= fi < stack@.len() ==> exists|i: int|
                                    0 <= i < ti + 1 && spec_opener_at(
                                        token_model(tokens@[i]),
                                        frame_lineno(#[trigger] stack@[fi]),
                                    ),
                        decreases k,
                    {
                        let ghost stackp = stack@;
                        let done = stack.pop().unwrap();
                        let node = finish_state(done);
                        let mut below = stack.pop().unwrap();
                        push_node_state(&mut below, node);
                        proof {
                            if stack@.len() == 0 {
                                assert(bottom_ok(below, id));
                            }
                            assert(frame_lineno(below) == frame_lineno(
                                stackp[stackp.len() - 2],
                            ));
                        }
                        stack.push(below);
                        proof {
                            assert forall|fi: int| 1 <= fi < stack@.len() implies exists|i: int|
                                0 <= i < ti + 1 && spec_opener_at(
                                    token_model(tokens@[i]),
                                    frame_lineno(#[trigger] stack@[fi]),
                                ) by {
                                assert(frame_lineno(stack@[fi]) == frame_lineno(stackp[fi]));
                                let w = choose|i: int|
                                    0 <= i < ti + 1 && spec_opener_at(
                                        token_model(tokens@[i]),
                                        frame_lineno(stackp[fi]),
                                    );
                                assert(0 <= w < ti + 1 && spec_opener_at(
                                    token_model(tokens@[w]),
                                    frame_lineno(stack@[fi]),
                                ));
                            }
                        }
                        k -= 1;
                    }
                },
            }
            ti += 1;
        }
        let ghost stack_end = stack@;
        let top = stack.pop().unwrap();
        let root = finish_state(top);
        if stack.len() > 0 {
            let mut msg = String::new();
            msg.append("Unterminated block started on line ");
            let line: u64 = if root.lineno >= 0 {
                root.lineno as u64
            } else {
                0
            };
            msg.append(u64_to_dec(line).as_str());
            proof {
                assert(msg@ =~= "Unterminated block started on line "@
                    + crate::strutil::spec_dec_digits(line as nat));
                assert(stack_end.len() >= 2);
                let fi = stack_end.len() - 1;
                assert(top == stack_end[fi]);
                let l = frame_lineno(top);
                let w = choose|i: int|
                    0 <= i < n && spec_opener_at(token_model(tokens@[i]), frame_lineno(
                        stack_end[fi],
                    ));
                assert(spec_lex(data@)[w] == token_model(tokens@[w]));
                assert(root.lineno as int == l);
                assert(0 <= w < spec_lex(data@).len() && spec_opener_at(spec_lex(data@)[w], l));
                assert(line as nat == (if l >= 0 {
                    l
                } else {
                    0
                }) as nat);
            }
            Err(msg)
        } else {
            proof {
                if spec_literal_only(data@) {
                    assert(tokens@.subrange(0, n as int) =~= tokens@);
                }
                assert(spec_lex(data@).len() == n as int);
                assert forall|i: int| 0 <= i < n implies spec_lex(data@)[i] == token_model(
                    tokens@[i],
                ) by {
                    assert(tokens_model(tokens@)[i] == token_model(tokens@[i]));
                }
                if (exists|i: int|
                    0 <= i < spec_lex(data@).len() && (#[trigger] spec_lex(data@)[i]) matches
                        TokenModel::StartBlock(..)) && (forall|i: int|
                    0 <= i < spec_lex(data@).len() ==> !spec_closer(#[trigger] spec_lex(data@)[i])
                        && !(spec_lex(data@)[i] matches TokenModel::Quote(_))) {
                    let w = choose|i: int|
                        0 <= i < spec_lex(data@).len() && (#[trigger] spec_lex(data@)[i]) matches
                            TokenModel::StartBlock(..);
                    assert(token_model(tokens@[w]) matches TokenModel::StartBlock(..));
                    assert(exists|i: int|
                        0 <= i < n as int && token_model(#[trigger] tokens@[i]) matches
                            TokenModel::StartBlock(..));
                    assert forall|i: int| 0 <= i < n as int implies !spec_closer(token_model(
                        #[trigger] tokens@[i],
                    )) && !(token_model(tokens@[i]) matches TokenModel::Quote(_)) by {
                        assert(spec_lex(data@)[i] == token_model(tokens@[i]));
                        assert(!spec_closer(spec_lex(data@)[i]));
                    }
                    assert(stack_end.len() >= 2);
                    assert(false);
                }
            }
            Ok(root)
        }
    }
}

/// The tokens of `toks` were produced from `s` (abbreviation used by the
/// parse loop's invariant to carry the lexer's guarantees along).
pub open spec fn is_subseq_of_tokens<'a>(toks: Seq<Token<'a>>, s: Seq<char>) -> bool {
    &&& crate::lex::is_subseq_of(tokens_text(toks), s)
    &&& (spec_literal_only(s) ==> tokens_text(toks) == s && tokens_all_text(toks))
}

} // verus!
