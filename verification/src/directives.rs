//! The directive registry: every operation invocable from markup, as a
//! closed set of tagged handlers dispatched by name.
//!
//! Each handler receives the worker and its argument nodes unevaluated,
//! and decides per argument whether to evaluate. A handler's error makes
//! the enclosing evaluation log a diagnostic and substitute an empty
//! string; it never aborts the page.
//!
//! Contracts here are exact on *literal* arguments (argument nodes that
//! are plain text); an argument that is itself a directive block evaluates
//! through the full interpreter, whose effects the caller supplies.

use vstd::prelude::*;
use crate::evaluator::{
    spec_ctx_get, spec_find_refdef, spec_marker, PlaceholderAction, RefDef, StoredValue, Worker,
};
use crate::outside::{char_alnum, char_is_alphanumeric, char_lower, char_lowercase};
use crate::page::Slug;
use crate::parse::{clone_node, node_equiv, Node, NodeValue};
use crate::strutil::{push_char, spec_dec_digits, u64_to_dec};

pub mod glossary;
pub mod logic;

verus! {

/// Every argument of `args` is a literal text node.
pub open spec fn all_literal(args: Seq<Node>) -> bool {
    forall|i: int| 0 <= i < args.len() ==> (#[trigger] args[i]).value matches NodeValue::Owned(_)
}

/// The text of the literal node `n` (empty for a block node).
pub open spec fn literal_text(n: Node) -> Seq<char> {
    match n.value {
        NodeValue::Owned(s) => s@,
        NodeValue::Children(_) => Seq::<char>::empty(),
    }
}

/// The texts of literal arguments joined with `sep`; a separator is
/// added only when something precedes it, as the fold in the evaluator
/// builds it.
pub open spec fn spec_literal_join(args: Seq<Node>, sep: Seq<char>) -> Seq<char>
    decreases args.len(),
{
    if args.len() == 0 {
        Seq::<char>::empty()
    } else {
        let rest = spec_literal_join(args.drop_last(), sep);
        let t = literal_text(args.last());
        if rest.len() == 0 {
            t
        } else {
            rest + sep + t
        }
    }
}

/// The HTML-escaping of one character, as [`escape_string`] performs it.
pub open spec fn spec_escape_char(c: char) -> Seq<char> {
    if c == '"' {
        "&#34;"@
    } else if c == '\'' {
        "&#39;"@
    } else if c == '<' {
        "&lt;"@
    } else if c == '>' {
        "&gt;"@
    } else if c == '&' {
        "&amp;"@
    } else {
        seq![c]
    }
}

/// The HTML-escaping of `s`.
pub open spec fn spec_escape(s: Seq<char>) -> Seq<char>
    decreases s.len(),
{
    if s.len() == 0 {
        Seq::<char>::empty()
    } else {
        spec_escape(s.drop_last()) + spec_escape_char(s.last())
    }
}

/// Escape the characters HTML gives meaning to: `"`, `'`, `<`, `>`, `&`.
pub fn escape_string(s: &str) -> (r: String)
    ensures
        r@ == spec_escape(s@),
{
    let n = s.unicode_len();
    let mut r = String::new();
    let mut i: usize = 0;
    while i < n
        invariant
            0 <= i <= n,
            n == s@.len(),
            r@ == spec_escape(s@.subrange(0, i as int)),
        decreases n - i,
    {
        proof {
            assert(s@.subrange(0, i + 1int).drop_last() =~= s@.subrange(0, i as int));
            assert(s@.subrange(0, i + 1int).last() == s@[i as int]);
        }
        let c = s.get_char(i);
        match c {
            '"' => r.append("&#34;"),
            '\'' => r.append("&#39;"),
            '<' => r.append("&lt;"),
            '>' => r.append("&gt;"),
            '&' => r.append("&amp;"),
            _ => push_char(&mut r, c),
        }
        i += 1;
    }
    proof {
        assert(s@.subrange(0, n as int) =~= s@);
    }
    r
}

/// A heading title turned into an anchor id: alphanumerics lowercased,
/// `-` and `_` kept, spaces become hyphens, anything else becomes its
/// code point in decimal.
pub open spec fn spec_title_to_id(s: Seq<char>) -> Seq<char>
    decreases s.len(),
{
    if s.len() == 0 {
        Seq::<char>::empty()
    } else {
        spec_title_to_id(s.drop_last()) + {
            let c = s.last();
            if char_alnum(c) {
                char_lower(c)
            } else if c == '-' || c == '_' {
                seq![c]
            } else if c == ' ' {
                seq!['-']
            } else {
                spec_dec_digits(c as nat)
            }
        }
    }
}

/// Does nothing; evaluates to the empty string whatever its arguments.
pub struct Dummy;

/// Highlights a code block: the first argument names the language, the
/// rest are the code.
pub struct Code;

/// Reports the project version, whole or truncated to as many components
/// as its argument has.
pub struct Version {
    pub version: Vec<String>,
}

/// Wraps its body in a titled admonition box.
pub struct Admonition {
    pub title: String,
    pub class: String,
}

/// Evaluates all arguments and joins them with nothing between.
pub struct Concat;

/// A user-defined substitution template with optional argument checkers
/// (regular expression patterns).
pub struct Template {
    pub template: String,
    pub checkers: Vec<String>,
}

/// Defines a [`Template`] under a chosen name.
pub struct DefineTemplate;

/// Renders `(term body)` pairs as an HTML definition list.
pub struct DefinitionList;

/// Parses and evaluates another source file inline.
pub struct Include;

/// Like [`Include`], but discards the output (for files that only define
/// names).
pub struct Import;

/// Binds names for the span of its own invocation, then restores them.
pub struct Let;

/// Binds a name for the rest of the page: lazily by default, eagerly
/// under the `evaluate` sigil.
pub struct Define;

/// Records key/value pairs for the theme.
pub struct ThemeConfig;

/// Registers children of the current page in the table of contents.
pub struct TocTree;

/// A section heading at a fixed level.
pub struct Heading {
    pub level: i8,
}

/// Registers an explicit reference definition.
pub struct RefDefDirective;

/// A deferred cross-reference: emits opaque placeholders resolved in the
/// link phase.
pub struct RefDirective;

/// Renders numbered step boxes.
pub struct Steps;

/// An image with alt text and optional width.
pub struct Figure;

/// Wraps its arguments in a fixed inline tag.
pub struct FormattingMarker {
    pub tag: &'static str,
}

/// An explicit hyperlink.
pub struct Link;

/// An ordered or unordered list.
pub struct List {
    pub tag: &'static str,
}

/// The closed set of directive handlers a name can resolve to.
pub enum DirectiveKind {
    Dummy(Dummy),
    Code(Code),
    Version(Version),
    Admonition(Admonition),
    Concat(Concat),
    Template(Template),
    DefineTemplate(DefineTemplate),
    DefinitionList(DefinitionList),
    Include(Include),
    Import(Import),
    Let(Let),
    Define(Define),
    ThemeConfig(ThemeConfig),
    TocTree(TocTree),
    Heading(Heading),
    RefDefDirective(RefDefDirective),
    RefDirective(RefDirective),
    Steps(Steps),
    Figure(Figure),
    FormattingMarker(FormattingMarker),
    Link(Link),
    List(List),
    Glossary(glossary::Glossary),
    If(logic::If),
    Not(logic::Not),
    Equals(logic::Equals),
    NotEquals(logic::NotEquals),
}

/// Structural equivalence of directive values: same handler, view-equal
/// configuration.
pub open spec fn kind_equiv(a: DirectiveKind, b: DirectiveKind) -> bool {
    match (a, b) {
        (DirectiveKind::Dummy(_), DirectiveKind::Dummy(_)) => true,
        (DirectiveKind::Code(_), DirectiveKind::Code(_)) => true,
        (DirectiveKind::Version(x), DirectiveKind::Version(y)) => x.version@.map_values(
            |s: String| s@,
        ) == y.version@.map_values(|s: String| s@),
        (DirectiveKind::Admonition(x), DirectiveKind::Admonition(y)) => x.title@ == y.title@
            && x.class@ == y.class@,
        (DirectiveKind::Concat(_), DirectiveKind::Concat(_)) => true,
        (DirectiveKind::Template(x), DirectiveKind::Template(y)) => x.template@ == y.template@
            && x.checkers@.map_values(|s: String| s@) == y.checkers@.map_values(|s: String| s@),
        (DirectiveKind::DefineTemplate(_), DirectiveKind::DefineTemplate(_)) => true,
        (DirectiveKind::DefinitionList(_), DirectiveKind::DefinitionList(_)) => true,
        (DirectiveKind::Include(_), DirectiveKind::Include(_)) => true,
        (DirectiveKind::Import(_), DirectiveKind::Import(_)) => true,
        (DirectiveKind::Let(_), DirectiveKind::Let(_)) => true,
        (DirectiveKind::Define(_), DirectiveKind::Define(_)) => true,
        (DirectiveKind::ThemeConfig(_), DirectiveKind::ThemeConfig(_)) => true,
        (DirectiveKind::TocTree(_), DirectiveKind::TocTree(_)) => true,
        (DirectiveKind::Heading(x), DirectiveKind::Heading(y)) => x.level == y.level,
        (DirectiveKind::RefDefDirective(_), DirectiveKind::RefDefDirective(_)) => true,
        (DirectiveKind::RefDirective(_), DirectiveKind::RefDirective(_)) => true,
        (DirectiveKind::Steps(_), DirectiveKind::Steps(_)) => true,
        (DirectiveKind::Figure(_), DirectiveKind::Figure(_)) => true,
        (DirectiveKind::FormattingMarker(x), DirectiveKind::FormattingMarker(y)) => x.tag@
            == y.tag@,
        (DirectiveKind::Link(_), DirectiveKind::Link(_)) => true,
        (DirectiveKind::List(x), DirectiveKind::List(y)) => x.tag@ == y.tag@,
        (DirectiveKind::Glossary(_), DirectiveKind::Glossary(_)) => true,
        (DirectiveKind::If(_), DirectiveKind::If(_)) => true,
        (DirectiveKind::Not(_), DirectiveKind::Not(_)) => true,
        (DirectiveKind::Equals(_), DirectiveKind::Equals(_)) => true,
        (DirectiveKind::NotEquals(_), DirectiveKind::NotEquals(_)) => true,
        _ => false,
    }
}

/// Copy a directive value; the copy is structurally equivalent.
pub fn clone_kind(k: &DirectiveKind) -> (r: DirectiveKind)
    ensures
        kind_equiv(r, *k),
{
    match k {
        DirectiveKind::Dummy(_) => DirectiveKind::Dummy(Dummy),
        DirectiveKind::Code(_) => DirectiveKind::Code(Code),
        DirectiveKind::Version(v) => {
            let mut parts: Vec<String> = Vec::new();
            let mut i: usize = 0;
            while i < v.version.len()
                invariant
                    0 <= i <= v.version@.len(),
                    parts@.len() == i,
                    forall|j: int| 0 <= j < i ==> (#[trigger] parts@[j])@ == v.version@[j]@,
                decreases v.version@.len() - i,
            {
                parts.push(v.version[i].clone());
                i += 1;
            }
            proof {
                assert(parts@.map_values(|s: String| s@) =~= v.version@.map_values(
                    |s: String| s@,
                ));
            }
            DirectiveKind::Version(Version { version: parts })
        },
        DirectiveKind::Admonition(a) => DirectiveKind::Admonition(
            Admonition { title: a.title.clone(), class: a.class.clone() },
        ),
        DirectiveKind::Concat(_) => DirectiveKind::Concat(Concat),
        DirectiveKind::Template(t) => {
            let mut checkers: Vec<String> = Vec::new();
            let mut i: usize = 0;
            while i < t.checkers.len()
                invariant
                    0 <= i <= t.checkers@.len(),
                    checkers@.len() == i,
                    forall|j: int| 0 <= j < i ==> (#[trigger] checkers@[j])@ == t.checkers@[j]@,
                decreases t.checkers@.len() - i,
            {
                checkers.push(t.checkers[i].clone());
                i += 1;
            }
            proof {
                assert(checkers@.map_values(|s: String| s@) =~= t.checkers@.map_values(
                    |s: String| s@,
                ));
            }
            DirectiveKind::Template(Template { template: t.template.clone(), checkers })
        },
        DirectiveKind::DefineTemplate(_) => DirectiveKind::DefineTemplate(DefineTemplate),
        DirectiveKind::DefinitionList(_) => DirectiveKind::DefinitionList(DefinitionList),
        DirectiveKind::Include(_) => DirectiveKind::Include(Include),
        DirectiveKind::Import(_) => DirectiveKind::Import(Import),
        DirectiveKind::Let(_) => DirectiveKind::Let(Let),
        DirectiveKind::Define(_) => DirectiveKind::Define(Define),
        DirectiveKind::ThemeConfig(_) => DirectiveKind::ThemeConfig(ThemeConfig),
        DirectiveKind::TocTree(_) => DirectiveKind::TocTree(TocTree),
        DirectiveKind::Heading(h) => DirectiveKind::Heading(Heading { level: h.level }),
        DirectiveKind::RefDefDirective(_) => DirectiveKind::RefDefDirective(RefDefDirective),
        DirectiveKind::RefDirective(_) => DirectiveKind::RefDirective(RefDirective),
        DirectiveKind::Steps(_) => DirectiveKind::Steps(Steps),
        DirectiveKind::Figure(_) => DirectiveKind::Figure(Figure),
        DirectiveKind::FormattingMarker(f) => DirectiveKind::FormattingMarker(
            FormattingMarker { tag: f.tag },
        ),
        DirectiveKind::Link(_) => DirectiveKind::Link(Link),
        DirectiveKind::List(l) => DirectiveKind::List(List { tag: l.tag }),
        DirectiveKind::Glossary(_) => DirectiveKind::Glossary(glossary::Glossary),
        DirectiveKind::If(_) => DirectiveKind::If(logic::If),
        DirectiveKind::Not(_) => DirectiveKind::Not(logic::Not),
        DirectiveKind::Equals(_) => DirectiveKind::Equals(logic::Equals),
        DirectiveKind::NotEquals(_) => DirectiveKind::NotEquals(logic::NotEquals),
    }
}

/// The next argument as a string: a literal argument is taken verbatim,
/// a block argument is evaluated. `None` past the end of the list.
pub fn consume_string(worker: &mut Worker, args: &[Node], i: usize, fuel: u32) -> (r: Option<
    String,
>)
    requires
        old(worker).wf(),
    ensures
        final(worker).wf(),
        (i as int) >= args@.len() ==> r is None && *final(worker) == *old(worker),
        args@[i as int].value matches NodeValue::Owned(s) ==> ((i as int) < args@.len() ==> (
        r matches Some(v) && v@ == s@ && *final(worker) == *old(worker))),
        (i as int) < args@.len() ==> r is Some,
    decreases fuel, 0int,
{
    if i >= args.len() {
        return None;
    }
    match &args[i].value {
        NodeValue::Owned(s) => Some(s.clone()),
        NodeValue::Children(_) => {
            if fuel == 0 {
                Some(String::new())
            } else {
                Some(worker.evaluate(&args[i], fuel - 1))
            }
        },
    }
}

/// Evaluate `args[from..]` and join the results with `sep` (a separator
/// is added only when output precedes it). On literal arguments the
/// result is exactly their texts joined.
pub fn concat_nodes(worker: &mut Worker, args: &[Node], from: usize, sep: &str, fuel: u32) -> (r:
    String)
    requires
        old(worker).wf(),
        from <= args@.len(),
    ensures
        final(worker).wf(),
        all_literal(args@.skip(from as int)) ==> r@ == spec_literal_join(
            args@.skip(from as int),
            sep@,
        ) && *final(worker) == *old(worker),
    decreases fuel, 0int,
{
    let ghost rest = args@.skip(from as int);
    let mut r = String::new();
    let mut i: usize = from;
    while i < args.len()
        invariant
            old(worker).wf(),
            worker.wf(),
            from <= i <= args@.len(),
            rest == args@.skip(from as int),
            all_literal(rest) ==> r@ == spec_literal_join(
                args@.subrange(from as int, i as int),
                sep@,
            ) && *worker == *old(worker),
        decreases args@.len() - i,
    {
        proof {
            if all_literal(rest) {
                assert(rest[i - from as int] == args@[i as int]);
                assert(args@[i as int].value matches NodeValue::Owned(_));
            }
        }
        let piece: String = match &args[i].value {
            NodeValue::Owned(s) => s.clone(),
            NodeValue::Children(_) => {
                if fuel == 0 {
                    String::new()
                } else {
                    worker.evaluate(&args[i], fuel - 1)
                }
            },
        };
        if r.as_str().is_empty() {
            r = piece;
        } else {
            r.append(sep);
            r.append(piece.as_str());
        }
        proof {
            if all_literal(rest) {
                assert(args@.subrange(from as int, i + 1int).drop_last() =~= args@.subrange(
                    from as int,
                    i as int,
                ));
                assert(args@.subrange(from as int, i + 1int).last() == args@[i as int]);
            }
        }
        i += 1;
    }
    proof {
        assert(args@.subrange(from as int, args@.len() as int) =~= args@.skip(from as int));
    }
    r
}

/// `<tag>body</tag>`.
pub open spec fn spec_wrap(tag: Seq<char>, body: Seq<char>) -> Seq<char> {
    seq!['<'] + tag + seq!['>'] + body + seq!['<', '/'] + tag + seq!['>']
}

/// `<a href="HREF">BODY</a>`.
pub open spec fn spec_anchor(href: Seq<char>, body: Seq<char>) -> Seq<char> {
    "<a href=\""@ + href + "\">"@ + body + "</a>"@
}

impl Dummy {
    pub fn handle(&self, worker: &mut Worker, args: &[Node], fuel: u32) -> (r: Result<
        String,
        (),
    >)
        requires
            old(worker).wf(),
        ensures
            final(worker).wf(),
            *final(worker) == *old(worker),
            r matches Ok(s) && s@ == Seq::<char>::empty(),
    {
        Ok(String::new())
    }
}

impl Concat {
    pub fn handle(&self, worker: &mut Worker, args: &[Node], fuel: u32) -> (r: Result<
        String,
        (),
    >)
        requires
            old(worker).wf(),
        ensures
            final(worker).wf(),
            r is Ok,
            all_literal(args@) ==> (r matches Ok(s) && s@ == spec_literal_join(
                args@,
                Seq::<char>::empty(),
            ) && *final(worker) == *old(worker)),
        decreases fuel, 1int,
    {
        proof {
            assert(args@.skip(0) =~= args@);
            reveal_strlit("");
            assert(""@ =~= Seq::<char>::empty());
        }
        Ok(concat_nodes(worker, args, 0, "", fuel))
    }
}

impl Version {
    /// The version string split at every dot.
    pub fn new(version: &str) -> (r: Version)
        ensures
            r.version@.map_values(|p: String| p@) == crate::strutil::spec_split(version@, '.'),
    {
        Version { version: crate::strutil::split_char(version, '.') }
    }

    pub fn handle(&self, worker: &mut Worker, args: &[Node], fuel: u32) -> (r: Result<
        String,
        (),
    >)
        requires
            old(worker).wf(),
        ensures
            final(worker).wf(),
            args@.len() == 0 ==> (r matches Ok(s) && s@ == crate::strutil::spec_join(
                self.version@.map_values(|p: String| p@),
                "."@,
            ) && *final(worker) == *old(worker)),
            args@.len() >= 2 ==> r is Err && *final(worker) == *old(worker),
            args@[0].value matches NodeValue::Owned(a) ==> (args@.len() == 1 ==> {
                let t = a@;
                if t.len() == 0 {
                    r matches Ok(s) && s@ == Seq::<char>::empty()
                } else {
                    let n = crate::page::spec_count_char(t, '.') + 1;
                    if n <= self.version@.len() {
                        r matches Ok(s) && s@ == crate::strutil::spec_join(
                            self.version@.map_values(|p: String| p@).subrange(0, n as int),
                            "."@,
                        )
                    } else {
                        r is Err
                    }
                }
            }),
        decreases fuel, 1int,
    {
        if args.len() == 0 {
            proof {
                assert(self.version@.map_values(|p: String| p@).subrange(
                    0,
                    self.version@.len() as int,
                ) =~= self.version@.map_values(|p: String| p@));
            }
            Ok(crate::strutil::join_prefix(&self.version, self.version.len(), "."))
        } else if args.len() == 1 {
            let arg = match consume_string(worker, args, 0, fuel) {
                Some(s) => s,
                None => {
                    return Err(());
                },
            };
            if arg.as_str().is_empty() {
                return Ok(String::new());
            }
            let dots = count_char_capped(arg.as_str(), '.', self.version.len());
            match dots {
                Some(count) => {
                    if count < self.version.len() {
                        Ok(crate::strutil::join_prefix(&self.version, count + 1, "."))
                    } else {
                        Err(())
                    }
                },
                None => Err(()),
            }
        } else {
            Err(())
        }
    }
}

/// How many times `c` occurs in `s`, when that count is at most `cap`;
/// `None` as soon as it exceeds the cap.
fn count_char_capped(s: &str, c: char, cap: usize) -> (r: Option<usize>)
    ensures
        match r {
            Some(count) => count == crate::page::spec_count_char(s@, c) && count <= cap,
            None => crate::page::spec_count_char(s@, c) > cap,
        },
{
    let n = s.unicode_len();
    let mut count: usize = 0;
    let mut i: usize = 0;
    while i < n
        invariant
            0 <= i <= n,
            n == s@.len(),
            count == crate::page::spec_count_char(s@.subrange(0, i as int), c),
            count <= cap,
        decreases n - i,
    {
        proof {
            assert(s@.subrange(0, i + 1int).drop_last() =~= s@.subrange(0, i as int));
        }
        if s.get_char(i) == c {
            if count >= cap {
                proof {
                    lemma_count_char_prefix_le(s@, i + 1int);
                    assert(s@.subrange(0, i + 1int).last() == s@[i as int]);
                }
                return None;
            }
            count += 1;
        }
        i += 1;
    }
    proof {
        assert(s@.subrange(0, n as int) =~= s@);
    }
    Some(count)
}

/// A prefix never holds more occurrences than the whole.
proof fn lemma_count_char_prefix_le(s: Seq<char>, i: int)
    requires
        0 <= i <= s.len(),
    ensures
        forall|c: char|
            crate::page::spec_count_char(s.subrange(0, i), c) <= #[trigger] crate::page::spec_count_char(
                s,
                c,
            ),
    decreases s.len() - i,
{
    if i < s.len() {
        lemma_count_char_prefix_le(s, i + 1);
        assert forall|c: char|
            crate::page::spec_count_char(s.subrange(0, i), c) <= #[trigger] crate::page::spec_count_char(
            s,
            c,
        ) by {
            assert(s.subrange(0, i + 1).drop_last() =~= s.subrange(0, i));
        }
    } else {
        assert(s.subrange(0, s.len() as int) =~= s);
    }
}

/// The admonition box markup.
pub open spec fn spec_admonition(class: Seq<char>, title: Seq<char>, body: Seq<char>) -> Seq<
    char,
> {
    "<div class=\"admonition admonition-"@ + class
        + "\"><span class=\"admonition-title admonition-title-"@ + class + "\">"@ + title
        + "</span>"@ + body + "</div>\n"@
}

impl Admonition {
    pub fn new(title: &str, class: &str) -> (r: Admonition)
        ensures
            r.title@ == title@,
            r.class@ == class@,
    {
        Admonition { title: title.to_owned(), class: class.to_owned() }
    }

    pub fn handle(&self, worker: &mut Worker, args: &[Node], fuel: u32) -> (r: Result<
        String,
        (),
    >)
        requires
            old(worker).wf(),
        ensures
            final(worker).wf(),
            args@.len() == 0 || args@.len() >= 3 ==> r is Err && *final(worker) == *old(worker),
            args@[0].value matches NodeValue::Owned(b) ==> (args@.len() == 1 ==> (r matches Ok(
                s,
            ) && s@ == spec_admonition(self.class@, self.title@, b@) && *final(worker) == *old(
                worker,
            ))),
            args@.len() == 2 && all_literal(args@) ==> (r matches Ok(s) && s@
                == spec_admonition(
                self.class@,
                literal_text(args@[0]),
                literal_text(args@[1]),
            ) && *final(worker) == *old(worker)),
        decreases fuel, 1int,
    {
        let title: String;
        let raw_body: String;
        if args.len() == 1 {
            title = self.title.clone();
            raw_body = match consume_string(worker, args, 0, fuel) {
                Some(s) => s,
                None => {
                    return Err(());
                },
            };
        } else if args.len() == 2 {
            title = match consume_string(worker, args, 0, fuel) {
                Some(s) => s,
                None => {
                    return Err(());
                },
            };
            raw_body = match consume_string(worker, args, 1, fuel) {
                Some(s) => s,
                None => {
                    return Err(());
                },
            };
        } else {
            return Err(());
        }
        let mut out = String::new();
        out.append("<div class=\"admonition admonition-");
        out.append(self.class.as_str());
        out.append("\"><span class=\"admonition-title admonition-title-");
        out.append(self.class.as_str());
        out.append("\">");
        out.append(title.as_str());
        out.append("</span>");
        out.append(raw_body.as_str());
        out.append("</div>\n");
        proof {
            assert(out@ =~= spec_admonition(self.class@, title@, raw_body@));
        }
        Ok(out)
    }
}

impl FormattingMarker {
    pub fn new(tag: &'static str) -> (r: FormattingMarker)
        ensures
            r.tag@ == tag@,
    {
        FormattingMarker { tag }
    }

    pub fn handle(&self, worker: &mut Worker, args: &[Node], fuel: u32) -> (r: Result<
        String,
        (),
    >)
        requires
            old(worker).wf(),
        ensures
            final(worker).wf(),
            all_literal(args@) ==> (r matches Ok(s) && s@ == spec_wrap(
                self.tag@,
                spec_literal_join(args@, " "@),
            ) && *final(worker) == *old(worker)),
        decreases fuel, 1int,
    {
        proof {
            assert(args@.skip(0) =~= args@);
        }
        let body = concat_nodes(worker, args, 0, " ", fuel);
        let mut out = String::new();
        push_char(&mut out, '<');
        out.append(self.tag);
        push_char(&mut out, '>');
        out.append(body.as_str());
        out.append("</");
        out.append(self.tag);
        push_char(&mut out, '>');
        proof {
            reveal_strlit("</");
            assert("</"@ =~= seq!['<', '/']);
            assert(out@ =~= spec_wrap(self.tag@, body@));
        }
        Ok(out)
    }
}

impl Link {
    pub fn handle(&self, worker: &mut Worker, args: &[Node], fuel: u32) -> (r: Result<
        String,
        (),
    >)
        requires
            old(worker).wf(),
        ensures
            final(worker).wf(),
            args@.len() == 0 ==> r is Err && *final(worker) == *old(worker),
            args@.len() >= 1 && all_literal(args@) ==> (r matches Ok(s) && {
                let href = spec_escape(literal_text(args@[0]));
                let body = spec_literal_join(args@.skip(1), " "@);
                s@ == spec_anchor(
                    href,
                    if body.len() == 0 {
                        href
                    } else {
                        body
                    },
                ) && *final(worker) == *old(worker)
            }),
        decreases fuel, 1int,
    {
        let href_raw = match consume_string(worker, args, 0, fuel) {
            Some(s) => s,
            None => {
                return Err(());
            },
        };
        let href = escape_string(href_raw.as_str());
        let body = concat_nodes(worker, args, 1, " ", fuel);
        let mut out = String::new();
        out.append("<a href=\"");
        out.append(href.as_str());
        out.append("\">");
        if body.as_str().is_empty() {
            out.append(href.as_str());
        } else {
            out.append(body.as_str());
        }
        out.append("</a>");
        proof {
            if body@.len() == 0 {
                assert(out@ =~= spec_anchor(href@, href@));
            } else {
                assert(out@ =~= spec_anchor(href@, body@));
            }
        }
        Ok(out)
    }
}

/// `<li>ITEM</li>` for each item, concatenated.
pub open spec fn spec_list_items(items: Seq<Node>) -> Seq<char>
    decreases items.len(),
{
    if items.len() == 0 {
        Seq::<char>::empty()
    } else {
        spec_list_items(items.drop_last()) + "<li>"@ + literal_text(items.last()) + "</li>"@
    }
}

impl List {
    pub fn new(tag: &'static str) -> (r: List)
        ensures
            r.tag@ == tag@,
    {
        List { tag }
    }

    pub fn handle(&self, worker: &mut Worker, args: &[Node], fuel: u32) -> (r: Result<
        String,
        (),
    >)
        requires
            old(worker).wf(),
        ensures
            final(worker).wf(),
            all_literal(args@) ==> (r matches Ok(s) && s@ == spec_wrap(
                self.tag@,
                spec_list_items(args@),
            ) && *final(worker) == *old(worker)),
        decreases fuel, 1int,
    {
        let mut body = String::new();
        let mut i: usize = 0;
        while i < args.len()
            invariant
                old(worker).wf(),
                worker.wf(),
                0 <= i <= args@.len(),
                all_literal(args@) ==> body@ == spec_list_items(args@.subrange(0, i as int))
                    && *worker == *old(worker),
            decreases args@.len() - i,
        {
            proof {
                if all_literal(args@) {
                    assert(args@[i as int].value matches NodeValue::Owned(_));
                    assert(args@.subrange(0, i + 1int).drop_last() =~= args@.subrange(
                        0,
                        i as int,
                    ));
                    assert(args@.subrange(0, i + 1int).last() == args@[i as int]);
                }
            }
            let item: String = match &args[i].value {
                NodeValue::Owned(s) => s.clone(),
                NodeValue::Children(_) => {
                    if fuel == 0 {
                        String::new()
                    } else {
                        worker.evaluate(&args[i], fuel - 1)
                    }
                },
            };
            body.append("<li>");
            body.append(item.as_str());
            body.append("</li>");
            i += 1;
        }
        proof {
            assert(args@.subrange(0, args@.len() as int) =~= args@);
        }
        let mut out = String::new();
        push_char(&mut out, '<');
        out.append(self.tag);
        push_char(&mut out, '>');
        out.append(body.as_str());
        out.append("</");
        out.append(self.tag);
        push_char(&mut out, '>');
        proof {
            reveal_strlit("</");
            assert("</"@ =~= seq!['<', '/']);
            assert(out@ =~= spec_wrap(self.tag@, body@));
        }
        Ok(out)
    }
}

impl ThemeConfig {
    /// Record key/value pairs; an odd argument count is an error. On
    /// literal arguments each evaluated pair is appended in order.
    pub fn handle(&self, worker: &mut Worker, args: &[Node], fuel: u32) -> (r: Result<
        String,
        (),
    >)
        requires
            old(worker).wf(),
        ensures
            final(worker).wf(),
            args@.len() % 2 != 0 ==> r is Err && *final(worker) == *old(worker),
            args@.len() % 2 == 0 ==> (r matches Ok(s) && s@ == Seq::<char>::empty()),
            args@.len() % 2 == 0 && all_literal(args@) ==> {
                &&& final(worker).theme_config@.len() == old(worker).theme_config@.len() + args@.len()
                    / 2
                &&& final(worker).theme_config@.subrange(0, old(worker).theme_config@.len() as int)
                    == old(worker).theme_config@
                &&& forall|j: int|
                    0 <= j && j < args@.len() / 2 ==> ((#[trigger] final(worker).theme_config@[
                    old(worker).theme_config@.len() + j]).0@ == literal_text(args@[2 * j])
                        && final(worker).theme_config@[old(worker).theme_config@.len() + j].1@
                        == literal_text(args@[2 * j + 1]))
                &&& final(worker).ctx == old(worker).ctx
                &&& final(worker).evaluator == old(worker).evaluator
                &&& final(worker).current_slug == old(worker).current_slug
                &&& final(worker).current_level == old(worker).current_level
            },
        decreases fuel, 1int,
    {
        if args.len() % 2 != 0 {
            return Err(());
        }
        let mut i: usize = 0;
        while i + 1 < args.len()
            invariant
                old(worker).wf(),
                worker.wf(),
                0 <= i <= args@.len(),
                i % 2 == 0,
                args@.len() % 2 == 0,
                all_literal(args@) ==> {
                    &&& worker.theme_config@.len() == old(worker).theme_config@.len() + i / 2
                    &&& worker.theme_config@.subrange(0, old(worker).theme_config@.len() as int)
                        == old(worker).theme_config@
                    &&& forall|j: int|
                        0 <= j && j < i / 2 ==> ((#[trigger] worker.theme_config@[old(
                            worker,
                        ).theme_config@.len() + j]).0@ == literal_text(args@[2 * j])
                            && worker.theme_config@[old(worker).theme_config@.len() + j].1@
                            == literal_text(args@[2 * j + 1]))
                    &&& worker.ctx == old(worker).ctx
                    &&& worker.evaluator == old(worker).evaluator
                    &&& worker.current_slug == old(worker).current_slug
                    &&& worker.current_level == old(worker).current_level
                },
            decreases args@.len() - i,
        {
            proof {
                if all_literal(args@) {
                    assert(args@[i as int].value matches NodeValue::Owned(_));
                    assert(args@[i + 1int].value matches NodeValue::Owned(_));
                }
            }
            let key: String = match &args[i].value {
                NodeValue::Owned(s) => s.clone(),
                NodeValue::Children(_) => {
                    if fuel == 0 {
                        String::new()
                    } else {
                        worker.evaluate(&args[i], fuel - 1)
                    }
                },
            };
            let value: String = match &args[i + 1].value {
                NodeValue::Owned(s) => s.clone(),
                NodeValue::Children(_) => {
                    if fuel == 0 {
                        String::new()
                    } else {
                        worker.evaluate(&args[i + 1], fuel - 1)
                    }
                },
            };
            worker.theme_config.push((key, value));
            proof {
                if all_literal(args@) {
                    assert(worker.theme_config@.subrange(
                        0,
                        old(worker).theme_config@.len() as int,
                    ) =~= old(worker).theme_config@);
                }
            }
            i += 2;
        }
        Ok(String::new())
    }
}

/// The leading whitespace of `s` removed.
pub open spec fn spec_trim_start(s: Seq<char>) -> Seq<char>
    decreases s.len(),
{
    if s.len() == 0 {
        s
    } else if crate::strutil::spec_is_space(s[0]) {
        spec_trim_start(s.drop_first())
    } else {
        s
    }
}

/// The trailing whitespace of `s` removed.
pub open spec fn spec_trim_end(s: Seq<char>) -> Seq<char>
    decreases s.len(),
{
    if s.len() == 0 {
        s
    } else if crate::strutil::spec_is_space(s.last()) {
        spec_trim_end(s.drop_last())
    } else {
        s
    }
}

/// `s` with leading and trailing whitespace removed.
pub open spec fn spec_trim(s: Seq<char>) -> Seq<char> {
    spec_trim_end(spec_trim_start(s))
}

/// Trim whitespace from both ends of `s`.
pub fn trim_str(s: &str) -> (r: String)
    ensures
        r@ == spec_trim(s@),
    decreases s@.len(),
{
    let n = s.unicode_len();
    if n == 0 {
        return String::new();
    }
    if crate::strutil::is_space(s.get_char(0)) {
        proof {
            assert(s@.drop_first() =~= s@.subrange(1, n as int));
        }
        return trim_str(s.substring_char(1, n));
    }
    if crate::strutil::is_space(s.get_char(n - 1)) {
        proof {
            assert(s@.drop_last() =~= s@.subrange(0, n - 1int));
            lemma_trim_end_start(s@);
        }
        return trim_str(s.substring_char(0, n - 1));
    }
    proof {
        assert(spec_trim_start(s@) == s@);
        assert(spec_trim_end(s@) == s@);
    }
    s.to_owned()
}

/// When a string starts with a non-space, trimming commutes: the end may
/// be trimmed first.
proof fn lemma_trim_end_start(s: Seq<char>)
    requires
        s.len() > 0,
        !crate::strutil::spec_is_space(s[0]),
        crate::strutil::spec_is_space(s.last()),
    ensures
        spec_trim(s) == spec_trim(s.drop_last()),
{
    assert(spec_trim_start(s) == s);
    assert(spec_trim_start(s.drop_last()) == s.drop_last());
    assert(spec_trim_end(s) == spec_trim_end(s.drop_last()));
}

impl Code {
    /// Highlight a code block: the first argument names the language, the
    /// remaining arguments concatenate to the code, trimmed before
    /// highlighting. Fails when the language or theme is unknown.
    pub fn handle(&self, worker: &mut Worker, args: &[Node], fuel: u32) -> (r: Result<
        String,
        (),
    >)
        requires
            old(worker).wf(),
        ensures
            final(worker).wf(),
            args@.len() == 0 ==> r is Err && *final(worker) == *old(worker),
            args@.len() >= 1 && all_literal(args@) ==> {
                let lang = literal_text(args@[0]);
                let code = spec_trim(spec_literal_join(args@.skip(1), Seq::<char>::empty()));
                &&& *final(worker) == *old(worker)
                &&& match r {
                    Ok(s) => crate::outside::highlight_of(
                        old(worker).highlighter.theme@,
                        lang,
                        code,
                    ) == Some(s@),
                    Err(_) => crate::outside::highlight_of(
                        old(worker).highlighter.theme@,
                        lang,
                        code,
                    ) is None,
                }
            },
        decreases fuel, 1int,
    {
        proof {
            reveal_strlit("");
            assert(""@ =~= Seq::<char>::empty());
        }
        let language = match consume_string(worker, args, 0, fuel) {
            Some(s) => s,
            None => {
                return Err(());
            },
        };
        let literal = concat_nodes(worker, args, 1, "", fuel);
        let trimmed = trim_str(literal.as_str());
        match worker.highlighter.highlight(language.as_str(), trimmed.as_str()) {
            Ok(s) => Ok(s),
            Err(_) => Err(()),
        }
    }
}

/// Substitute `${N}` references in `template` by the matching argument
/// (or nothing, past the end of the argument list).
pub open spec fn spec_template_subst(template: Seq<char>, args: Seq<Seq<char>>) -> Seq<char>
    decreases template.len(),
{
    if template.len() == 0 {
        template
    } else if template.len() >= 4 && template[0] == '$' && template[1] == '{'
        && crate::strutil::spec_is_digit(template[2]) && template[3] == '}' {
        let n = crate::strutil::spec_digit_value(template[2]);
        (if n < args.len() {
            args[n as int]
        } else {
            Seq::<char>::empty()
        }) + spec_template_subst(template.subrange(4, template.len() as int), args)
    } else {
        seq![template[0]] + spec_template_subst(
            template.subrange(1, template.len() as int),
            args,
        )
    }
}

/// Exec mirror of [`spec_template_subst`].
fn template_subst(template: &str, args: &Vec<String>) -> (r: String)
    ensures
        r@ == spec_template_subst(template@, args@.map_values(|s: String| s@)),
    decreases template@.len(),
{
    let n = template.unicode_len();
    if n == 0 {
        return String::new();
    }
    if n >= 4 && template.get_char(0) == '$' && template.get_char(1) == '{'
        && crate::strutil::is_digit(template.get_char(2)) && template.get_char(3) == '}' {
        let d = template.get_char(2);
        let idx: usize = (d as u32 as usize) - ('0' as u32 as usize);
        let mut r = String::new();
        if idx < args.len() {
            r.append(args[idx].as_str());
        }
        let rest = template_subst(template.substring_char(4, n), args);
        r.append(rest.as_str());
        proof {
            assert(idx == crate::strutil::spec_digit_value(template@[2]));
        }
        r
    } else {
        let mut r = String::new();
        push_char(&mut r, template.get_char(0));
        let rest = template_subst(template.substring_char(1, n), args);
        r.append(rest.as_str());
        proof {
            assert(Seq::<char>::empty().push(template@[0]) =~= seq![template@[0]]);
        }
        r
    }
}

/// The argument values a template invocation sees: evaluated arguments,
/// padded with empty strings out to `count`.
pub open spec fn spec_template_args(args: Seq<Node>, count: int) -> Seq<Seq<char>> {
    Seq::new(
        count as nat,
        |i: int|
            if i < args.len() {
                literal_text(args[i])
            } else {
                Seq::<char>::empty()
            },
    )
}

/// Every checker pattern is valid and matches its argument value.
pub open spec fn spec_checkers_ok(checkers: Seq<String>, vals: Seq<Seq<char>>) -> bool {
    forall|i: int|
        0 <= i < checkers.len() ==> crate::outside::regex_valid((#[trigger] checkers[i])@)
            && crate::outside::regex_match_of(checkers[i]@, vals[i])
}

impl Template {
    pub fn new(template: String, checkers: Vec<String>) -> (r: Template)
        ensures
            r.template == template,
            r.checkers == checkers,
    {
        Template { template, checkers }
    }

    /// Evaluate the arguments, check each against its pattern, and
    /// substitute them into the template. An argument failing its
    /// pattern, or an invalid pattern, is an error; missing arguments
    /// check and substitute as the empty string.
    pub fn handle(&self, worker: &mut Worker, args: &[Node], fuel: u32) -> (r: Result<
        String,
        (),
    >)
        requires
            old(worker).wf(),
        ensures
            final(worker).wf(),
            all_literal(args@) ==> ({
                let count: int = if args@.len() > self.checkers@.len() {
                    args@.len() as int
                } else {
                    self.checkers@.len() as int
                };
                let vals = spec_template_args(args@, count);
                &&& (spec_checkers_ok(self.checkers@, vals) ==> (r matches Ok(s) && s@
                    == spec_template_subst(self.template@, vals) && *final(worker) == *old(
                    worker,
                )))
                &&& (!spec_checkers_ok(self.checkers@, vals) ==> r is Err)
            }),
        decreases fuel, 1int,
    {
        let count = if args.len() > self.checkers.len() {
            args.len()
        } else {
            self.checkers.len()
        };
        let ghost vals = spec_template_args(args@, count as int);
        let mut values: Vec<String> = Vec::new();
        let mut i: usize = 0;
        while i < count
            invariant
                old(worker).wf(),
                worker.wf(),
                0 <= i <= count,
                count == if args@.len() > self.checkers@.len() {
                    args@.len()
                } else {
                    self.checkers@.len()
                },
                vals == spec_template_args(args@, count as int),
                values@.len() == i,
                all_literal(args@) ==> {
                    &&& *worker == *old(worker)
                    &&& forall|j: int| 0 <= j < i ==> (#[trigger] values@[j])@ == vals[j]
                    &&& forall|j: int|
                        0 <= j < i && j < self.checkers@.len() ==> crate::outside::regex_valid(
                            (#[trigger] self.checkers@[j])@,
                        ) && crate::outside::regex_match_of(self.checkers@[j]@, vals[j])
                },
            decreases count - i,
        {
            proof {
                if all_literal(args@) && (i as int) < args@.len() {
                    assert(args@[i as int].value matches NodeValue::Owned(_));
                }
            }
            let v: String = if i < args.len() {
                match &args[i].value {
                    NodeValue::Owned(s) => s.clone(),
                    NodeValue::Children(_) => {
                        if fuel == 0 {
                            String::new()
                        } else {
                            worker.evaluate(&args[i], fuel - 1)
                        }
                    },
                }
            } else {
                String::new()
            };
            if i < self.checkers.len() {
                match crate::outside::regex_matches(self.checkers[i].as_str(), v.as_str()) {
                    Some(true) => {},
                    Some(false) => {
                        proof {
                            if all_literal(args@) {
                                assert(v@ == vals[i as int]);
                                assert(!spec_checkers_ok(self.checkers@, vals));
                            }
                        }
                        return Err(());
                    },
                    None => {
                        proof {
                            if all_literal(args@) {
                                assert(!crate::outside::regex_valid(
                                    self.checkers@[i as int]@,
                                ));
                                assert(!spec_checkers_ok(self.checkers@, vals));
                            }
                        }
                        return Err(());
                    },
                }
            }
            values.push(v);
            i += 1;
        }
        let out = template_subst(self.template.as_str(), &values);
        proof {
            if all_literal(args@) {
                assert(values@.map_values(|p: String| p@) =~= vals);
            }
        }
        Ok(out)
    }
}

impl DefineTemplate {
    /// `(define-template NAME TEMPLATE PATTERN...)`: validates each
    /// pattern and binds a [`Template`] under the name in the page-local
    /// context. With literal arguments and valid patterns, the name is
    /// bound to exactly that template; an invalid pattern is an error and
    /// binds nothing.
    pub fn handle(&self, worker: &mut Worker, args: &[Node], fuel: u32) -> (r: Result<
        String,
        (),
    >)
        requires
            old(worker).wf(),
        ensures
            final(worker).wf(),
            args@.len() < 2 ==> r is Err,
            (args@.len() >= 2 && all_literal(args@)) ==> ({
                let patterns_ok = forall|j: int|
                    2 <= j < args@.len() ==> crate::outside::regex_valid(
                        literal_text(#[trigger] args@[j]),
                    );
                &&& (patterns_ok ==> (r matches Ok(s) && s@ == Seq::<char>::empty() && (
                spec_ctx_get(final(worker).ctx.entries@, literal_text(args@[0])) matches Some(
                    StoredValue::Directive(DirectiveKind::Template(t)),
                ) && t.template@ == literal_text(args@[1]) && t.checkers@.map_values(
                    |p: String| p@,
                ) == args@.skip(2).map_values(|n: Node| literal_text(n)))))
                &&& (!patterns_ok ==> r is Err && *final(worker) == *old(worker))
            }),
        decreases fuel, 1int,
    {
        if args.len() < 2 {
            return Err(());
        }
        let name = match consume_string(worker, args, 0, fuel) {
            Some(s) => s,
            None => {
                return Err(());
            },
        };
        let template_text = match consume_string(worker, args, 1, fuel) {
            Some(s) => s,
            None => {
                return Err(());
            },
        };
        let mut checkers: Vec<String> = Vec::new();
        let mut i: usize = 2;
        while i < args.len()
            invariant
                old(worker).wf(),
                worker.wf(),
                2 <= i <= args@.len(),
                args@.len() >= 2,
                checkers@.len() == i - 2,
                all_literal(args@) ==> {
                    &&& *worker == *old(worker)
                    &&& name@ == literal_text(args@[0])
                    &&& template_text@ == literal_text(args@[1])
                    &&& forall|j: int|
                        0 <= j < i - 2 ==> (#[trigger] checkers@[j])@ == literal_text(
                            args@[j + 2],
                        ) && crate::outside::regex_valid(literal_text(args@[j + 2]))
                },
            decreases args@.len() - i,
        {
            proof {
                if all_literal(args@) {
                    assert(args@[i as int].value matches NodeValue::Owned(_));
                }
            }
            let pattern: String = match &args[i].value {
                NodeValue::Owned(s) => s.clone(),
                NodeValue::Children(_) => {
                    if fuel == 0 {
                        String::new()
                    } else {
                        worker.evaluate(&args[i], fuel - 1)
                    }
                },
            };
            if !crate::outside::regex_is_valid(pattern.as_str()) {
                return Err(());
            }
            checkers.push(pattern);
            i += 1;
        }
        proof {
            if all_literal(args@) {
                assert(checkers@.map_values(|p: String| p@) =~= args@.skip(2).map_values(
                    |n: Node| literal_text(n),
                ));
                assert forall|j: int|
                    2 <= j < args@.len() implies crate::outside::regex_valid(
                    literal_text(#[trigger] args@[j]),
                ) by {
                    assert(checkers@[j - 2]@ == literal_text(args@[j]));
                }
            }
        }
        worker.register(
            name.as_str(),
            DirectiveKind::Template(Template { template: template_text, checkers }),
        );
        Ok(String::new())
    }
}

/// `<dt>TERM</dt><dd>BODY</dd>` for each literal pair.
pub open spec fn spec_dl_items(items: Seq<Node>) -> Seq<char>
    decreases items.len(),
{
    if items.len() == 0 {
        Seq::<char>::empty()
    } else {
        spec_dl_items(items.drop_last()) + {
            match items.last().value {
                NodeValue::Children(c) => "<dt>"@ + literal_text(c@[0]) + "</dt><dd>"@
                    + literal_text(c@[1]) + "</dd>"@,
                NodeValue::Owned(_) => Seq::<char>::empty(),
            }
        }
    }
}

/// Every item is a block of exactly two literal children.
pub open spec fn spec_dl_shape(items: Seq<Node>) -> bool {
    forall|i: int|
        0 <= i < items.len() ==> {
            &&& (#[trigger] items[i]).value matches NodeValue::Children(c)
            &&& c@.len() == 2
            &&& c@[0].value matches NodeValue::Owned(_)
            &&& c@[1].value matches NodeValue::Owned(_)
        }
}

impl DefinitionList {
    /// Each argument must be a `(term body)` block; renders
    /// `<dt>term</dt><dd>body</dd>` in order.
    pub fn handle(&self, worker: &mut Worker, args: &[Node], fuel: u32) -> (r: Result<
        String,
        (),
    >)
        requires
            old(worker).wf(),
        ensures
            final(worker).wf(),
            spec_dl_shape(args@) ==> (r matches Ok(s) && s@ == spec_dl_items(args@) && *final(worker) == *old(worker)),
        decreases fuel, 1int,
    {
        let mut out = String::new();
        let mut i: usize = 0;
        while i < args.len()
            invariant
                old(worker).wf(),
                worker.wf(),
                0 <= i <= args@.len(),
                spec_dl_shape(args@) ==> out@ == spec_dl_items(args@.subrange(0, i as int))
                    && *worker == *old(worker),
            decreases args@.len() - i,
        {
            proof {
                if spec_dl_shape(args@) {
                    assert(args@[i as int].value matches NodeValue::Children(_));
                    assert(args@.subrange(0, i + 1int).drop_last() =~= args@.subrange(
                        0,
                        i as int,
                    ));
                    assert(args@.subrange(0, i + 1int).last() == args@[i as int]);
                }
            }
            let children: &Vec<Node> = match &args[i].value {
                NodeValue::Owned(_) => {
                    return Err(());
                },
                NodeValue::Children(c) => c,
            };
            if children.len() != 2 {
                return Err(());
            }
            let term: String = match &children[0].value {
                NodeValue::Owned(s) => s.clone(),
                NodeValue::Children(_) => {
                    if fuel == 0 {
                        String::new()
                    } else {
                        worker.evaluate(&children[0], fuel - 1)
                    }
                },
            };
            let body: String = match &children[1].value {
                NodeValue::Owned(s) => s.clone(),
                NodeValue::Children(_) => {
                    if fuel == 0 {
                        String::new()
                    } else {
                        worker.evaluate(&children[1], fuel - 1)
                    }
                },
            };
            out.append("<dt>");
            out.append(term.as_str());
            out.append("</dt><dd>");
            out.append(body.as_str());
            out.append("</dd>");
            i += 1;
        }
        proof {
            assert(args@.subrange(0, args@.len() as int) =~= args@);
        }
        Ok(out)
    }
}

impl Include {
    /// `(include PATH)`: parse the named source (from the worker's
    /// preloaded source set, resolved relative to the including file) and
    /// evaluate it inline. Exactly one argument is accepted; a source
    /// missing from the set, or one that fails to parse, is an error.
    pub fn handle(&self, worker: &mut Worker, args: &[Node], fuel: u32) -> (r: Result<
        String,
        (),
    >)
        requires
            old(worker).wf(),
        ensures
            final(worker).wf(),
            args@.len() != 1 ==> r is Err && *final(worker) == *old(worker),
            args@[0].value matches NodeValue::Owned(p) ==> ((args@.len() == 1
                && crate::page::spec_pairs_get(
                crate::page::spec_pairs_view(old(worker).sources@),
                crate::evaluator::spec_resolve_source_path(
                    old(worker).parser@,
                    args@[0].file_id,
                    p@,
                ),
            ) is None) ==> (r is Err && final(worker).diagnostics@.len() == old(
                worker,
            ).diagnostics@.len() + 1)),
        decreases fuel, 1int,
    {
        if args.len() != 1 {
            return Err(());
        }
        let path = match consume_string(worker, args, 0, fuel) {
            Some(s) => s,
            None => {
                return Err(());
            },
        };
        let resolved = worker.resolve_source_path(&args[0], path.as_str());
        let data: String = match crate::page::pairs_get(&worker.sources, resolved.as_str()) {
            Some(d) => d.clone(),
            None => {
                worker.error(&args[0], "Included file is not in the source set");
                return Err(());
            },
        };
        let node = match worker.parser.parse_source(resolved.as_str(), data.as_str()) {
            Ok(n) => n,
            Err(_) => {
                worker.error(&args[0], "Failed to parse included file");
                return Err(());
            },
        };
        if fuel == 0 {
            worker.error(&args[0], "Evaluation nested too deeply");
            return Err(());
        }
        Ok(worker.evaluate(&node, fuel - 1))
    }
}

impl Import {
    /// Like include, but the output is discarded.
    pub fn handle(&self, worker: &mut Worker, args: &[Node], fuel: u32) -> (r: Result<
        String,
        (),
    >)
        requires
            old(worker).wf(),
        ensures
            final(worker).wf(),
            r matches Ok(s) ==> s@ == Seq::<char>::empty(),
            args@.len() != 1 ==> r is Err,
        decreases fuel, 2int,
    {
        let inner = Include;
        match inner.handle(worker, args, fuel) {
            Ok(_) => Ok(String::new()),
            Err(_) => Err(()),
        }
    }
}

/// The keys of a fully literal `let` binding list: the block's
/// even-positioned children, when the block has even length and every
/// child — keys and values alike — is literal text, so that binding the
/// list has no evaluation side effects.
pub open spec fn spec_let_literal_keys(kvs: Node) -> Option<Seq<Seq<char>>> {
    match kvs.value {
        NodeValue::Children(c) => {
            if c@.len() % 2 == 0 && all_literal(c@) {
                Some(Seq::new(c@.len() / 2, |j: int| literal_text(c@[2 * j])))
            } else {
                None
            }
        },
        NodeValue::Owned(_) => None,
    }
}

/// Whether every node of `children` is literal text.
fn is_all_literal(children: &Vec<Node>) -> (r: bool)
    ensures
        r == all_literal(children@),
{
    let mut i: usize = 0;
    while i < children.len()
        invariant
            0 <= i <= children@.len(),
            forall|j: int|
                0 <= j < i ==> (#[trigger] children@[j]).value matches NodeValue::Owned(_),
        decreases children@.len() - i,
    {
        match &children[i].value {
            NodeValue::Owned(_) => {},
            NodeValue::Children(_) => {
                proof {
                    assert(children@[i as int].value matches NodeValue::Children(_));
                }
                return false;
            },
        }
        i += 1;
    }
    true
}

/// The first position in `keys` holding the same text as position `t`.
proof fn lemma_first_occurrence(keys: Seq<Seq<char>>, t: int) -> (m: int)
    requires
        0 <= t < keys.len(),
    ensures
        0 <= m <= t,
        keys[m] == keys[t],
        forall|m2: int| 0 <= m2 < m ==> keys[m2] != keys[t],
    decreases t,
{
    if exists|m2: int| 0 <= m2 < t && keys[m2] == keys[t] {
        let w = choose|m2: int| 0 <= m2 < t && keys[m2] == keys[t];
        let m = lemma_first_occurrence(keys, w);
        assert(keys[m] == keys[w]);
        m
    } else {
        t
    }
}

/// Walking the binding snapshots backwards past steps that bound other
/// keys leaves the mapping of `k` untouched.
proof fn lemma_restore_prefix(
    snaps: Seq<Seq<(String, StoredValue)>>,
    vars: Seq<(String, Option<StoredValue>)>,
    k: Seq<char>,
    m: int,
)
    requires
        snaps.len() == vars.len() + 1,
        0 <= m <= vars.len(),
        forall|m2: int| 0 <= m2 < m ==> (#[trigger] vars[m2]).0@ != k,
        forall|m2: int, k2: Seq<char>| #![trigger spec_ctx_get(snaps[m2 + 1], k2)]
            0 <= m2 < vars.len() && k2 != vars[m2].0@ ==> spec_ctx_get(snaps[m2 + 1], k2)
                == spec_ctx_get(snaps[m2], k2),
    ensures
        spec_ctx_get(snaps[m], k) == spec_ctx_get(snaps[0], k),
    decreases m,
{
    if m > 0 {
        lemma_restore_prefix(snaps, vars, k, m - 1);
        assert(vars[m - 1].0@ != k);
        assert(spec_ctx_get(snaps[(m - 1) + 1], k) == spec_ctx_get(snaps[m - 1], k));
    }
}

impl Let {
    /// `(let (K V ...) BODY...)`: binds each key to its eagerly evaluated
    /// value, evaluates the body as a concatenation, then restores every
    /// replaced or created binding, most recent first — binding
    /// visibility is scoped to this invocation. With literal keys, every
    /// bound key's mapping afterwards equals its mapping before, whatever
    /// the body did to it and however often the key was bound: unwinding
    /// last-bound-first ends each key at the value its first binding
    /// saved.
    pub fn handle(&self, worker: &mut Worker, args: &[Node], fuel: u32) -> (r: Result<
        String,
        (),
    >)
        requires
            old(worker).wf(),
        ensures
            final(worker).wf(),
            args@.len() == 0 ==> r is Err && *final(worker) == *old(worker),
            spec_let_literal_keys(args@[0]) matches Some(keys) ==> (args@.len() >= 1
                ==> forall|j: int|
                0 <= j < keys.len() ==> spec_ctx_get(
                    final(worker).ctx.entries@,
                    #[trigger] keys[j],
                ) == spec_ctx_get(old(worker).ctx.entries@, keys[j])),
            args@[0].value matches NodeValue::Children(c) ==> ((args@.len() >= 1 && c@.len() % 2
                == 0) ==> r is Ok),
            args@[0].value matches NodeValue::Children(c) ==> ((args@.len() >= 1 && c@.len() % 2
                == 0 && all_literal(args@.skip(1))) ==> (r matches Ok(s) && s@
                == spec_literal_join(args@.skip(1), Seq::<char>::empty()))),
        decreases fuel, 2int,
    {
        if args.len() < 1 {
            return Err(());
        }
        let ghost keys_opt = spec_let_literal_keys(args@[0]);
        let ghost ctx0 = worker.ctx.entries@;
        let ghost mut snaps: Seq<Seq<(String, StoredValue)>> = seq![ctx0];
        let kvs = &args[0];
        let children: &Vec<Node> = match &kvs.value {
            NodeValue::Owned(_) => {
                return Err(());
            },
            NodeValue::Children(c) => c,
        };
        if children.len() % 2 != 0 {
            return Err(());
        }
        let mut variables: Vec<(String, Option<StoredValue>)> = Vec::new();
        let lit = is_all_literal(children);
        proof {
            assert(args@[0] == *kvs);
            assert(kvs.value matches NodeValue::Children(c) && c@ == children@);
            if !lit {
                assert(!all_literal(children@));
                let cs = args@[0].value->Children_0;
                assert(cs@ == children@);
                assert(!all_literal(cs@));
                assert(spec_let_literal_keys(args@[0]) is None);
                assert(keys_opt is None);
            }
        }
        if lit {
            let mut i: usize = 0;
            while i + 1 < children.len()
                invariant
                    worker.wf(),
                    0 <= i <= children@.len(),
                    i % 2 == 0,
                    children@.len() % 2 == 0,
                    all_literal(children@),
                    kvs.value matches NodeValue::Children(c) && c@ == children@,
                    variables@.len() == i / 2,
                    keys_opt == spec_let_literal_keys(args@[0]),
                    ctx0 == old(worker).ctx.entries@,
                    args@.len() >= 1 && args@[0] == *kvs,
                    keys_opt matches Some(keys) ==> {
                        &&& keys.len() == children@.len() / 2
                        &&& snaps.len() == i / 2 + 1
                        &&& snaps[0] == ctx0
                        &&& snaps[i as int / 2] == worker.ctx.entries@
                        &&& forall|m: int|
                            0 <= m < i / 2 ==> (#[trigger] variables@[m]).0@ == keys[m]
                        &&& forall|m: int|
                            0 <= m < i / 2 ==> match (#[trigger] variables@[m]).1 {
                                Some(v) => spec_ctx_get(snaps[m], variables@[m].0@) == Some(v),
                                None => spec_ctx_get(snaps[m], variables@[m].0@) is None,
                            }
                        &&& forall|m: int, k2: Seq<char>|
                            #![trigger spec_ctx_get(snaps[m + 1], k2)]
                            0 <= m < i / 2 && k2 != variables@[m].0@ ==> spec_ctx_get(
                                snaps[m + 1],
                                k2,
                            ) == spec_ctx_get(snaps[m], k2)
                    },
                decreases children@.len() - i,
            {
                proof {
                    match keys_opt {
                        Some(keys) => {
                            assert(children@[2 * (i / 2)].value matches NodeValue::Owned(_));
                            assert(keys[i as int / 2] == literal_text(
                                children@[2 * (i as int / 2)],
                            ));
                        },
                        None => {},
                    }
                }
                let evaluated_key: String = match &children[i].value {
                    NodeValue::Owned(s) => s.clone(),
                    NodeValue::Children(_) => unreached(),
                };
                let evaluated_value: String = match &children[i + 1].value {
                    NodeValue::Owned(s) => s.clone(),
                    NodeValue::Children(_) => unreached(),
                };
                let stored = StoredValue::Node(
                    Node::new_string(
                        evaluated_value.as_str(),
                        children[i + 1].file_id,
                        children[i + 1].lineno,
                    ),
                );
                let ghost pre_ctx = worker.ctx.entries@;
                let original_value = worker.ctx.insert(evaluated_key.clone(), stored);
                variables.push((evaluated_key, original_value));
                proof {
                    snaps = snaps.push(worker.ctx.entries@);
                    match keys_opt {
                        Some(keys) => {
                            let m = i as int / 2;
                            assert(variables@[m].0@ == keys[m]);
                            assert(snaps[m] == pre_ctx);
                            assert(match variables@[m].1 {
                                Some(v) => spec_ctx_get(snaps[m], variables@[m].0@) == Some(v),
                                None => spec_ctx_get(snaps[m], variables@[m].0@) is None,
                            });
                            assert forall|mm: int, k2: Seq<char>|
                                #![trigger spec_ctx_get(snaps[mm + 1], k2)]
                                0 <= mm < m + 1 && k2 != variables@[mm].0@ implies spec_ctx_get(
                                snaps[mm + 1],
                                k2,
                            ) == spec_ctx_get(snaps[mm], k2) by {
                                if mm < m {
                                    assert(spec_ctx_get(snaps[mm + 1], k2) == spec_ctx_get(
                                        snaps[mm],
                                        k2,
                                    ));
                                }
                            }
                        },
                        None => {},
                    }
                }
                i += 2;
            }
        } else {
            let mut i: usize = 0;
            while i + 1 < children.len()
                invariant
                    worker.wf(),
                    0 <= i <= children@.len(),
                    i % 2 == 0,
                    children@.len() % 2 == 0,
                    kvs.value matches NodeValue::Children(c) && c@ == children@,
                decreases children@.len() - i,
            {
                let evaluated_key: String = match &children[i].value {
                    NodeValue::Owned(s) => s.clone(),
                    NodeValue::Children(_) => {
                        if fuel == 0 {
                            String::new()
                        } else {
                            worker.evaluate(&children[i], fuel - 1)
                        }
                    },
                };
                let evaluated_value: String = match &children[i + 1].value {
                    NodeValue::Owned(s) => s.clone(),
                    NodeValue::Children(_) => {
                        if fuel == 0 {
                            String::new()
                        } else {
                            worker.evaluate(&children[i + 1], fuel - 1)
                        }
                    },
                };
                let stored = StoredValue::Node(
                    Node::new_string(
                        evaluated_value.as_str(),
                        children[i + 1].file_id,
                        children[i + 1].lineno,
                    ),
                );
                let original_value = worker.ctx.insert(evaluated_key.clone(), stored);
                variables.push((evaluated_key, original_value));
                i += 2;
            }
        }
        let concat = Concat;
        let result = concat.handle(worker, slice_from(args, 1), fuel);
        let ghost keys_g = keys_opt;
        let n_vars = variables.len();
        let mut j: usize = n_vars;
        while j > 0
            invariant
                worker.wf(),
                0 <= j <= n_vars,
                n_vars == variables@.len(),
                keys_g == keys_opt,
                ctx0 == old(worker).ctx.entries@,
                keys_opt == spec_let_literal_keys(args@[0]),
                keys_opt matches Some(keys) ==> {
                    &&& n_vars == keys.len()
                    &&& snaps.len() == n_vars + 1
                    &&& snaps[0] == ctx0
                    &&& forall|m: int|
                        0 <= m < n_vars ==> (#[trigger] variables@[m]).0@ == keys[m]
                    &&& forall|m: int|
                        0 <= m < j ==> match (#[trigger] variables@[m]).1 {
                            Some(v) => spec_ctx_get(snaps[m], variables@[m].0@) == Some(v),
                            None => spec_ctx_get(snaps[m], variables@[m].0@) is None,
                        }
                    &&& forall|m: int, k2: Seq<char>|
                        #![trigger spec_ctx_get(snaps[m + 1], k2)]
                        0 <= m < n_vars && k2 != variables@[m].0@ ==> spec_ctx_get(
                            snaps[m + 1],
                            k2,
                        ) == spec_ctx_get(snaps[m], k2)
                    &&& forall|m: int|
                        j <= m < n_vars ==> ((forall|m2: int|
                            0 <= m2 < m ==> (#[trigger] variables@[m2]).0@ != variables@[m].0@)
                            ==> spec_ctx_get(
                            worker.ctx.entries@,
                            (#[trigger] variables@[m]).0@,
                        ) == spec_ctx_get(snaps[m], variables@[m].0@))
                },
            decreases j,
        {
            j -= 1;
            let ghost cur0 = worker.ctx.entries@;
            let ghost vars0 = variables@;
            let pair = swap_take(&mut variables, j);
            let (key, original_value) = pair;
            proof {
                assert(key@ == vars0[j as int].0@);
                assert(variables@.len() == vars0.len());
            }
            match original_value {
                Some(v) => {
                    worker.ctx.insert(key, v);
                },
                None => {
                    worker.ctx.remove(key.as_str());
                },
            }
            proof {
                match keys_g {
                    Some(keys) => {
                        assert(spec_ctx_get(worker.ctx.entries@, vars0[j as int].0@)
                            == spec_ctx_get(snaps[j as int], vars0[j as int].0@));
                        assert forall|m: int|
                            j as int <= m < n_vars implies ((forall|m2: int|
                                0 <= m2 < m ==> (#[trigger] variables@[m2]).0@
                                    != variables@[m].0@) ==> spec_ctx_get(
                            worker.ctx.entries@,
                            (#[trigger] variables@[m]).0@,
                        ) == spec_ctx_get(snaps[m], variables@[m].0@)) by {
                            if forall|m2: int|
                                0 <= m2 < m ==> (#[trigger] variables@[m2]).0@
                                    != variables@[m].0@ {
                                if m == j as int {
                                    assert(variables@[m].0@ == vars0[j as int].0@);
                                } else {
                                    assert(variables@[j as int].0@ != variables@[m].0@);
                                    assert(vars0[j as int].0@ == variables@[j as int].0@);
                                    assert(variables@[m].0@ == vars0[m].0@);
                                    assert forall|m2: int|
                                        0 <= m2 < m implies (#[trigger] vars0[m2]).0@
                                            != vars0[m].0@ by {
                                        if m2 != j as int {
                                            assert(vars0[m2] == variables@[m2]);
                                        }
                                        assert(vars0[m2].0@ == variables@[m2].0@);
                                        assert(variables@[m2].0@ != variables@[m].0@);
                                    }
                                    assert(spec_ctx_get(cur0, variables@[m].0@) == spec_ctx_get(
                                        snaps[m],
                                        variables@[m].0@,
                                    ));
                                    assert(spec_ctx_get(
                                        worker.ctx.entries@,
                                        variables@[m].0@,
                                    ) == spec_ctx_get(cur0, variables@[m].0@));
                                }
                            }
                        }
                    },
                    None => {},
                }
            }
        }
        proof {
            match keys_g {
                Some(keys) => {
                    assert forall|t: int| 0 <= t < keys.len() implies spec_ctx_get(
                        worker.ctx.entries@,
                        #[trigger] keys[t],
                    ) == spec_ctx_get(ctx0, keys[t]) by {
                        let m = lemma_first_occurrence(keys, t);
                        assert(variables@[m].0@ == keys[m]);
                        assert forall|m2: int| 0 <= m2 < m implies (#[trigger] variables@[m2]).0@
                            != variables@[m].0@ by {
                            assert(variables@[m2].0@ == keys[m2]);
                            assert(keys[m2] != keys[t]);
                        }
                        assert(spec_ctx_get(worker.ctx.entries@, variables@[m].0@)
                            == spec_ctx_get(snaps[m], variables@[m].0@));
                        lemma_restore_prefix(snaps, variables@, keys[t], m);
                        assert(keys[m] == keys[t]);
                    }
                },
                None => {},
            }
        }
        result
    }
}

/// Move the element at `i` out of `v`, leaving a placeholder with the
/// same key text.
fn swap_take(v: &mut Vec<(String, Option<StoredValue>)>, i: usize) -> (r: (
    String,
    Option<StoredValue>,
))
    requires
        i < old(v)@.len(),
    ensures
        r.0 == old(v)@[i as int].0,
        r.1 == old(v)@[i as int].1,
        final(v)@.len() == old(v)@.len(),
        final(v)@[i as int].0@ == old(v)@[i as int].0@,
        forall|m: int|
            0 <= m < old(v)@.len() && m != i ==> #[trigger] final(v)@[m] == old(v)@[m],
{
    let pair = v.remove(i);
    let key_copy = pair.0.clone();
    v.insert(i, (key_copy, None));
    proof {
        assert forall|m: int|
            0 <= m < old(v)@.len() && m != i implies #[trigger] v@[m] == old(v)@[m] by {
            assert(v@ =~= old(v)@.remove(i as int).insert(i as int, v@[i as int]));
        }
    }
    pair
}

/// The children of a block from `from` on, as the argument slice a
/// directive receives.
pub fn slice_args<'a>(children: &'a Vec<Node>, from: usize) -> (r: &'a [Node])
    ensures
        r@ == if (from as int) <= children@.len() {
            children@.skip(from as int)
        } else {
            Seq::<Node>::empty()
        },
{
    slice_from(children.as_slice(), from)
}

/// `args[from..]` as a subslice.
fn slice_from<'a>(args: &'a [Node], from: usize) -> (r: &'a [Node])
    ensures
        r@ == if (from as int) <= args@.len() {
            args@.skip(from as int)
        } else {
            Seq::<Node>::empty()
        },
{
    if from <= args.len() {
        let r = &args[from..args.len()];
        proof {
            assert(r@ =~= args@.skip(from as int));
        }
        r
    } else {
        let r = &args[0..0];
        proof {
            assert(r@ =~= Seq::<Node>::empty());
        }
        r
    }
}

impl Define {
    /// `(define NAME VALUE)` binds lazily for the rest of the page;
    /// `(define evaluate NAME VALUE)` evaluates once and binds the
    /// result.
    pub fn handle(&self, worker: &mut Worker, args: &[Node], fuel: u32) -> (r: Result<
        String,
        (),
    >)
        requires
            old(worker).wf(),
        ensures
            final(worker).wf(),
            args@.len() < 2 || args@.len() > 3 ==> r is Err,
            args@[0].value matches NodeValue::Owned(sig) ==> ((args@.len() == 3 && all_literal(
                args@,
            ) && sig@ == "evaluate"@) ==> (r matches Ok(s) && s@ == Seq::<char>::empty() && (
            spec_ctx_get(
                final(worker).ctx.entries@,
                literal_text(args@[1]),
            ) matches Some(sv) && sv matches StoredValue::Node(n) && n.value matches
                NodeValue::Owned(text) && text@ == literal_text(args@[2])) && (forall|
                key: Seq<char>,
            |
                key != literal_text(args@[1]) ==> spec_ctx_get(
                    final(worker).ctx.entries@,
                    key,
                ) == #[trigger] spec_ctx_get(old(worker).ctx.entries@, key)))),
            args@[0].value matches NodeValue::Owned(sig) ==> ((args@.len() == 3 && sig@
                != "evaluate"@) ==> r is Err),
            args@[0].value matches NodeValue::Owned(k) ==> (args@.len() == 2 ==> (r matches Ok(
                s,
            ) && s@ == Seq::<char>::empty() && (spec_ctx_get(
                final(worker).ctx.entries@,
                k@,
            ) matches Some(sv) && sv matches StoredValue::Node(n) && node_equiv(n, args@[1]))
                && (forall|key: Seq<char>|
                key != k@ ==> spec_ctx_get(final(worker).ctx.entries@, key)
                    == #[trigger] spec_ctx_get(old(worker).ctx.entries@, key)))),
        decreases fuel, 1int,
    {
        if args.len() < 2 || args.len() > 3 {
            return Err(());
        }
        let arg1 = match consume_string(worker, args, 0, fuel) {
            Some(s) => s,
            None => {
                return Err(());
            },
        };
        if args.len() == 3 {
            let is_evaluate = {
                let sigil: String = String::from_str("evaluate");
                arg1 == sigil
            };
            if !is_evaluate {
                return Err(());
            }
            let key: String = match &args[1].value {
                NodeValue::Owned(s) => s.clone(),
                NodeValue::Children(_) => {
                    if fuel == 0 {
                        String::new()
                    } else {
                        worker.evaluate(&args[1], fuel - 1)
                    }
                },
            };
            let evaluated: String = match &args[2].value {
                NodeValue::Owned(s) => s.clone(),
                NodeValue::Children(_) => {
                    if fuel == 0 {
                        String::new()
                    } else {
                        worker.evaluate(&args[2], fuel - 1)
                    }
                },
            };
            let value = Node::new_string(evaluated.as_str(), args[2].file_id, args[2].lineno);
            worker.ctx.insert(key, StoredValue::Node(value));
            Ok(String::new())
        } else {
            let value = clone_node(&args[1]);
            worker.ctx.insert(arg1, StoredValue::Node(value));
            Ok(String::new())
        }
    }
}

impl TocTree {
    /// Each argument is either a child slug, or a `(title slug)` block;
    /// each is registered as a child of the current page.
    pub fn handle(&self, worker: &mut Worker, args: &[Node], fuel: u32) -> (r: Result<
        String,
        (),
    >)
        requires
            old(worker).wf(),
        ensures
            final(worker).wf(),
            old(worker).current_slug is None ==> r is Err && *final(worker) == *old(worker),
            (old(worker).current_slug is Some && args@.len() == 1 && all_literal(args@)) ==> (
            r matches Ok(s) && s@ == Seq::<char>::empty() && ({
                let parent = old(worker).current_slug->Some_0@;
                let child = literal_text(args@[0]);
                &&& crate::toctree::spec_find_children(
                    final(worker).evaluator.toctree.children@,
                    parent,
                ) matches Some(l) && l.len() >= 1 && crate::toctree::elem_view(l.last()) == (
                    child,
                    None::<Seq<char>>,
                )
                &&& crate::toctree::spec_find_parents(
                    final(worker).evaluator.toctree.inverse_children@,
                    child,
                ) matches Some(l) && l.len() >= 1 && l.last()@ == parent
            })),
        decreases fuel, 1int,
    {
        let current: Slug = match &worker.current_slug {
            Some(s) => s.clone(),
            None => {
                return Err(());
            },
        };
        let mut i: usize = 0;
        while i < args.len()
            invariant
                worker.wf(),
                0 <= i <= args@.len(),
                old(worker).current_slug is Some,
                current@ == old(worker).current_slug->Some_0@,
                (args@.len() == 1 && all_literal(args@)) ==> {
                    if i == 0 {
                        *worker == *old(worker)
                    } else {
                        let parent = old(worker).current_slug->Some_0@;
                        let child = literal_text(args@[0]);
                        &&& crate::toctree::spec_find_children(
                            worker.evaluator.toctree.children@,
                            parent,
                        ) matches Some(l) && l.len() >= 1 && crate::toctree::elem_view(
                            l.last(),
                        ) == (child, None::<Seq<char>>)
                        &&& crate::toctree::spec_find_parents(
                            worker.evaluator.toctree.inverse_children@,
                            child,
                        ) matches Some(l) && l.len() >= 1 && l.last()@ == parent
                    }
                },
            decreases args@.len() - i,
        {
            proof {
                if args@.len() == 1 && all_literal(args@) {
                    assert(args@[0].value matches NodeValue::Owned(_));
                }
            }
            match &args[i].value {
                NodeValue::Owned(slug) => {
                    let child = Slug::new(slug.clone());
                    worker.evaluator.toctree.add(&current, child, None);
                },
                NodeValue::Children(children) => {
                    if children.len() != 2 {
                        return Err(());
                    }
                    let title: String = match &children[0].value {
                        NodeValue::Owned(s) => s.clone(),
                        NodeValue::Children(_) => {
                            if fuel == 0 {
                                String::new()
                            } else {
                                worker.evaluate(&children[0], fuel - 1)
                            }
                        },
                    };
                    let slug: String = match &children[1].value {
                        NodeValue::Owned(s) => s.clone(),
                        NodeValue::Children(_) => {
                            if fuel == 0 {
                                String::new()
                            } else {
                                worker.evaluate(&children[1], fuel - 1)
                            }
                        },
                    };
                    worker.evaluator.toctree.add(&current, Slug::new(slug), Some(title));
                },
            }
            i += 1;
        }
        Ok(String::new())
    }
}

/// The section transition a heading at `level` makes from `old_level`:
/// one `<section>` going one deeper, nothing at the same level, closing
/// tags coming up.
pub open spec fn spec_heading_prefix(old_level: int, level: int) -> Seq<char> {
    if level == old_level + 1 {
        "<section>"@
    } else if level == old_level {
        Seq::<char>::empty()
    } else {
        crate::evaluator::spec_repeat_close((old_level - level) as nat)
    }
}

/// A rendered heading: the section transition, then
/// `<hN id="ID">TITLE</hN>` with the id HTML-escaped.
pub open spec fn spec_heading_html(
    prefix: Seq<char>,
    level: nat,
    id: Seq<char>,
    title: Seq<char>,
) -> Seq<char> {
    prefix + "<h"@ + spec_dec_digits(level) + " id=\""@ + spec_escape(id) + "\">"@ + title
        + "</h"@ + spec_dec_digits(level) + ">"@
}

impl Heading {
    pub fn new(level: i8) -> (r: Heading)
        ensures
            r.level == level,
    {
        Heading { level }
    }

    /// A heading title turned into an anchor id, per [`spec_title_to_id`].
    pub fn title_to_id(title: &str) -> (r: String)
        ensures
            r@ == spec_title_to_id(title@),
    {
        let n = title.unicode_len();
        let mut r = String::new();
        let mut i: usize = 0;
        while i < n
            invariant
                0 <= i <= n,
                n == title@.len(),
                r@ == spec_title_to_id(title@.subrange(0, i as int)),
            decreases n - i,
        {
            proof {
                assert(title@.subrange(0, i + 1int).drop_last() =~= title@.subrange(
                    0,
                    i as int,
                ));
                assert(title@.subrange(0, i + 1int).last() == title@[i as int]);
            }
            let c = title.get_char(i);
            if char_is_alphanumeric(c) {
                let lower = char_lowercase(c);
                r.append(lower.as_str());
            } else if c == '-' || c == '_' {
                push_char(&mut r, c);
            } else if c == ' ' {
                push_char(&mut r, '-');
            } else {
                r.append(u64_to_dec((c as u32) as u64).as_str());
            }
            i += 1;
        }
        proof {
            assert(title@.subrange(0, n as int) =~= title@);
        }
        r
    }

    /// `(hN TITLE)` derives the anchor id from the title; `(hN ID TITLE)`
    /// takes it verbatim. Either way the id — auto-derived or explicit —
    /// is registered as a reference to the current page. Opens or closes
    /// `<section>` wrappers as the level demands; skipping levels
    /// downward is an error, though one reported only after the
    /// reference and the page title were recorded, with the section
    /// level left where it was. The first heading also records the page
    /// title for the theme.
    pub fn handle(&self, worker: &mut Worker, args: &[Node], fuel: u32) -> (r: Result<
        String,
        (),
    >)
        requires
            old(worker).wf(),
        ensures
            final(worker).wf(),
            args@.len() == 0 ==> r is Err && *final(worker) == *old(worker),
            (self.level < 1 || self.level > 6) ==> r is Err && *final(worker) == *old(worker),
            (args@.len() == 1 && all_literal(args@) && 1 <= self.level <= 6 && old(
                worker,
            ).current_slug is Some) ==> ({
                let t = literal_text(args@[0]);
                if self.level <= old(worker).current_level + 1 {
                    &&& r matches Ok(s) && s@ == spec_heading_html(
                        spec_heading_prefix(
                            old(worker).current_level as int,
                            self.level as int,
                        ),
                        self.level as nat,
                        spec_title_to_id(t),
                        t,
                    )
                    &&& final(worker).current_level == self.level
                    &&& spec_find_refdef(
                        final(worker).evaluator.refdefs@,
                        spec_title_to_id(t),
                    ) matches Some(d) && d.title@ == t && d.slug@ == old(
                        worker,
                    ).current_slug->Some_0@
                    &&& (forall|k: Seq<char>|
                        k != spec_title_to_id(t) ==> spec_find_refdef(
                            final(worker).evaluator.refdefs@,
                            k,
                        ) == #[trigger] spec_find_refdef(old(worker).evaluator.refdefs@, k))
                    &&& spec_heading_title_recorded(*old(worker), *final(worker), t)
                } else {
                    &&& r is Err
                    &&& final(worker).current_level == old(worker).current_level
                    &&& spec_find_refdef(
                        final(worker).evaluator.refdefs@,
                        spec_title_to_id(t),
                    ) matches Some(d) && d.title@ == t && d.slug@ == old(
                        worker,
                    ).current_slug->Some_0@
                    &&& (forall|k: Seq<char>|
                        k != spec_title_to_id(t) ==> spec_find_refdef(
                            final(worker).evaluator.refdefs@,
                            k,
                        ) == #[trigger] spec_find_refdef(old(worker).evaluator.refdefs@, k))
                    &&& spec_heading_title_recorded(*old(worker), *final(worker), t)
                }
            }),
            (args@.len() == 2 && all_literal(args@) && 1 <= self.level <= 6 && old(
                worker,
            ).current_slug is Some) ==> ({
                let id = literal_text(args@[0]);
                let t = literal_text(args@[1]);
                if self.level <= old(worker).current_level + 1 {
                    &&& r matches Ok(s) && s@ == spec_heading_html(
                        spec_heading_prefix(
                            old(worker).current_level as int,
                            self.level as int,
                        ),
                        self.level as nat,
                        id,
                        t,
                    )
                    &&& final(worker).current_level == self.level
                    &&& spec_find_refdef(final(worker).evaluator.refdefs@, id) matches Some(d)
                        && d.title@ == t && d.slug@ == old(worker).current_slug->Some_0@
                    &&& (forall|k: Seq<char>|
                        k != id ==> spec_find_refdef(final(worker).evaluator.refdefs@, k)
                            == #[trigger] spec_find_refdef(old(worker).evaluator.refdefs@, k))
                    &&& spec_heading_title_recorded(*old(worker), *final(worker), t)
                } else {
                    &&& r is Err
                    &&& final(worker).current_level == old(worker).current_level
                    &&& spec_find_refdef(final(worker).evaluator.refdefs@, id) matches Some(d)
                        && d.title@ == t && d.slug@ == old(worker).current_slug->Some_0@
                    &&& (forall|k: Seq<char>|
                        k != id ==> spec_find_refdef(final(worker).evaluator.refdefs@, k)
                            == #[trigger] spec_find_refdef(old(worker).evaluator.refdefs@, k))
                    &&& spec_heading_title_recorded(*old(worker), *final(worker), t)
                }
            }),
        decreases fuel, 1int,
    {
        if self.level < 1 || self.level > 6 {
            return Err(());
        }
        let arg1 = match consume_string(worker, args, 0, fuel) {
            Some(s) => s,
            None => {
                return Err(());
            },
        };
        let arg2 = consume_string(worker, args, 1, fuel);
        let title: String;
        let refdef: String;
        let escaped_id: String;
        match arg2 {
            Some(t) => {
                let slug: Slug = match &worker.current_slug {
                    Some(s) => s.clone(),
                    None => {
                        return Err(());
                    },
                };
                let rd = RefDef::new(t.as_str(), &slug);
                worker.insert_refdef(arg1.clone(), rd);
                title = t;
                escaped_id = escape_string(arg1.as_str());
                refdef = arg1;
            },
            None => {
                let slug: Slug = match &worker.current_slug {
                    Some(s) => s.clone(),
                    None => {
                        return Err(());
                    },
                };
                let title_id = Heading::title_to_id(arg1.as_str());
                let rd = RefDef::new(arg1.as_str(), &slug);
                worker.insert_refdef(title_id.clone(), rd);
                title = arg1;
                escaped_id = escape_string(title_id.as_str());
                refdef = title_id;
            },
        }
        let ghost tc0 = worker.theme_config@;
        if crate::page::pairs_get(&worker.theme_config, "title").is_none() {
            let key = String::from_str("title");
            worker.theme_config.push((key, title.clone()));
            proof {
                assert(worker.theme_config@.subrange(0, tc0.len() as int) =~= tc0);
            }
        }
        let prefix = match worker.handle_heading(self.level) {
            Ok(p) => p,
            Err(_) => {
                proof {
                    if args@.len() == 1 && all_literal(args@) && 1 <= self.level <= 6 && old(
                        worker,
                    ).current_slug is Some {
                        assert(args@[0].value matches NodeValue::Owned(_));
                        assert(title@ == literal_text(args@[0]));
                        assert(refdef@ == spec_title_to_id(literal_text(args@[0])));
                    }
                    if args@.len() == 2 && all_literal(args@) && 1 <= self.level <= 6 && old(
                        worker,
                    ).current_slug is Some {
                        assert(args@[0].value matches NodeValue::Owned(_));
                        assert(args@[1].value matches NodeValue::Owned(_));
                        assert(title@ == literal_text(args@[1]));
                        assert(refdef@ == literal_text(args@[0]));
                    }
                }
                return Err(());
            },
        };
        let mut out = String::new();
        out.append(prefix.as_str());
        out.append("<h");
        out.append(u64_to_dec(self.level as u64).as_str());
        out.append(" id=\"");
        out.append(escaped_id.as_str());
        out.append("\">");
        out.append(title.as_str());
        out.append("</h");
        out.append(u64_to_dec(self.level as u64).as_str());
        out.append(">");
        proof {
            assert(out@ =~= prefix@ + "<h"@ + spec_dec_digits(self.level as nat) + " id=\""@
                + escaped_id@ + "\">"@ + title@ + "</h"@ + spec_dec_digits(self.level as nat)
                + ">"@);
            assert(escaped_id@ == spec_escape(refdef@));
            assert(out@ == spec_heading_html(prefix@, self.level as nat, refdef@, title@));
            if args@.len() == 1 && all_literal(args@) && 1 <= self.level <= 6 {
                assert(args@[0].value matches NodeValue::Owned(_));
                assert(title@ == literal_text(args@[0]));
                assert(refdef@ == spec_title_to_id(literal_text(args@[0])));
            }
            if args@.len() == 2 && all_literal(args@) && 1 <= self.level <= 6 && old(
                worker,
            ).current_slug is Some {
                assert(args@[0].value matches NodeValue::Owned(_));
                assert(args@[1].value matches NodeValue::Owned(_));
                assert(title@ == literal_text(args@[1]));
                assert(refdef@ == literal_text(args@[0]));
            }
        }
        Ok(out)
    }
}

/// The page title for the theme: recorded from this heading when none was
/// recorded before, untouched otherwise.
pub open spec fn spec_heading_title_recorded(pre: Worker, post: Worker, title: Seq<char>) -> bool {
    if crate::page::spec_pairs_get(
        crate::page::spec_pairs_view(pre.theme_config@),
        "title"@,
    ) is None {
        &&& post.theme_config@.len() == pre.theme_config@.len() + 1
        &&& post.theme_config@.subrange(0, pre.theme_config@.len() as int) == pre.theme_config@
        &&& post.theme_config@.last().0@ == "title"@
        &&& post.theme_config@.last().1@ == title
    } else {
        post.theme_config == pre.theme_config
    }
}

impl RefDefDirective {
    /// `(define-ref ID TITLE)`: registers `ID` as a reference to the
    /// current page with the given title.
    pub fn handle(&self, worker: &mut Worker, args: &[Node], fuel: u32) -> (r: Result<
        String,
        (),
    >)
        requires
            old(worker).wf(),
        ensures
            final(worker).wf(),
            args@.len() < 2 ==> r is Err,
            args@.len() >= 2 && all_literal(args@) && old(worker).current_slug is Some ==> (
            r matches Ok(s) && s@ == Seq::<char>::empty() && (spec_find_refdef(
                final(worker).evaluator.refdefs@,
                literal_text(args@[0]),
            ) matches Some(d) && d.title@ == literal_text(args@[1]) && d.slug@ == old(
                worker,
            ).current_slug->Some_0@) && (forall|k: Seq<char>|
                k != literal_text(args@[0]) ==> spec_find_refdef(
                    final(worker).evaluator.refdefs@,
                    k,
                ) == #[trigger] spec_find_refdef(old(worker).evaluator.refdefs@, k))),
        decreases fuel, 1int,
    {
        if args.len() < 2 {
            return Err(());
        }
        let id = match consume_string(worker, args, 0, fuel) {
            Some(s) => s,
            None => {
                return Err(());
            },
        };
        let title = match consume_string(worker, args, 1, fuel) {
            Some(s) => s,
            None => {
                return Err(());
            },
        };
        let slug: Slug = match &worker.current_slug {
            Some(s) => s.clone(),
            None => {
                return Err(());
            },
        };
        let rd = RefDef::new(title.as_str(), &slug);
        worker.insert_refdef(id, rd);
        Ok(String::new())
    }
}

impl RefDirective {
    /// `(ref ID)` or `(ref ID TITLE)`: emits a link whose target — and,
    /// without an explicit title, whose text — are opaque placeholders
    /// resolved in the link phase, so the referenced page need not exist
    /// yet.
    pub fn handle(&self, worker: &mut Worker, args: &[Node], fuel: u32) -> (r: Result<
        String,
        (),
    >)
        requires
            old(worker).wf(),
        ensures
            final(worker).wf(),
            args@.len() == 0 ==> r is Err && *final(worker) == *old(worker),
            args@.len() >= 2 && all_literal(args@) ==> (r matches Ok(s) && {
                let pend0 = old(worker).evaluator.pending_links@;
                let prefix = old(worker).evaluator.placeholder_prefix@;
                &&& final(worker).evaluator.pending_links@.len() == pend0.len() + 1
                &&& final(worker).evaluator.pending_links@[pend0.len() as int].0
                    == PlaceholderAction::Path
                &&& final(worker).evaluator.pending_links@[pend0.len() as int].1@
                    == literal_text(args@[0])
                &&& final(worker).evaluator.pending_links@.subrange(0, pend0.len() as int)
                    == pend0
                &&& s@ == spec_anchor(
                    spec_marker(prefix, pend0.len()),
                    literal_text(args@[1]),
                )
            }),
            args@.len() == 1 && all_literal(args@) ==> (r matches Ok(s) && {
                let pend0 = old(worker).evaluator.pending_links@;
                let prefix = old(worker).evaluator.placeholder_prefix@;
                &&& final(worker).evaluator.pending_links@.len() == pend0.len() + 2
                &&& final(worker).evaluator.pending_links@[pend0.len() as int].0
                    == PlaceholderAction::Title
                &&& final(worker).evaluator.pending_links@[pend0.len() as int].1@
                    == literal_text(args@[0])
                &&& final(worker).evaluator.pending_links@[pend0.len() + 1int].0
                    == PlaceholderAction::Path
                &&& final(worker).evaluator.pending_links@[pend0.len() + 1int].1@
                    == literal_text(args@[0])
                &&& final(worker).evaluator.pending_links@.subrange(0, pend0.len() as int)
                    == pend0
                &&& s@ == spec_anchor(
                    spec_marker(prefix, (pend0.len() + 1) as nat),
                    spec_marker(prefix, pend0.len()),
                )
            }),
        decreases fuel, 1int,
    {
        let refid = match consume_string(worker, args, 0, fuel) {
            Some(s) => s,
            None => {
                return Err(());
            },
        };
        let title: String = match consume_string(worker, args, 1, fuel) {
            Some(t) => t,
            None => worker.get_placeholder(refid.clone(), PlaceholderAction::Title),
        };
        let placeholder = worker.get_placeholder(refid, PlaceholderAction::Path);
        let mut out = String::new();
        out.append("<a href=\"");
        out.append(placeholder.as_str());
        out.append("\">");
        out.append(title.as_str());
        out.append("</a>");
        proof {
            assert(out@ =~= spec_anchor(placeholder@, title@));
            if args@.len() >= 2 && all_literal(args@) {
                assert(final(worker).evaluator.pending_links@.subrange(
                    0,
                    old(worker).evaluator.pending_links@.len() as int,
                ) =~= old(worker).evaluator.pending_links@);
            }
            if args@.len() == 1 && all_literal(args@) {
                assert(final(worker).evaluator.pending_links@.subrange(
                    0,
                    old(worker).evaluator.pending_links@.len() as int,
                ) =~= old(worker).evaluator.pending_links@);
            }
        }
        Ok(out)
    }
}

/// Every step argument is a block of exactly three children (a name, a
/// title, a body), title and body literal text.
pub open spec fn spec_steps_shape(args: Seq<Node>) -> bool {
    forall|i: int|
        0 <= i < args.len() ==> {
            &&& (#[trigger] args[i]).value matches NodeValue::Children(c)
            &&& c@.len() == 3
            &&& c@[1].value matches NodeValue::Owned(_)
            &&& c@[2].value matches NodeValue::Owned(_)
        }
}

/// One rendered step box, numbered from one.
pub open spec fn spec_step_item(step: Node, number: nat) -> Seq<char> {
    match step.value {
        NodeValue::Children(c) => "<div class=\"steps__step\"><div class=\"steps__bullet\">"@
            + "<div class=\"steps__stepnumber\">"@ + spec_dec_digits(number) + "</div></div>"@
            + "<h4>"@ + literal_text(c@[1]) + "</h4><div>"@ + literal_text(c@[2])
            + "</div></div>"@,
        NodeValue::Owned(_) => Seq::<char>::empty(),
    }
}

/// The step boxes of `args`, in order.
pub open spec fn spec_steps_items(args: Seq<Node>) -> Seq<char>
    decreases args.len(),
{
    if args.len() == 0 {
        Seq::<char>::empty()
    } else {
        spec_steps_items(args.drop_last()) + spec_step_item(args.last(), args.len() as nat)
    }
}

impl Steps {
    /// Renders numbered step boxes: each argument is a `(name title
    /// body)` block, or the name of a binding holding one.
    pub fn handle(&self, worker: &mut Worker, args: &[Node], fuel: u32) -> (r: Result<
        String,
        (),
    >)
        requires
            old(worker).wf(),
        ensures
            final(worker).wf(),
            spec_steps_shape(args@) ==> (r matches Ok(s) && s@ == "<div class=\"steps\">"@
                + spec_steps_items(args@) + "</div>"@ && *final(worker) == *old(worker)),
        decreases fuel, 1int,
    {
        let mut out = String::new();
        out.append("<div class=\"steps\">");
        let mut i: usize = 0;
        while i < args.len()
            invariant
                old(worker).wf(),
                worker.wf(),
                0 <= i <= args@.len(),
                spec_steps_shape(args@) ==> out@ == "<div class=\"steps\">"@
                    + spec_steps_items(args@.subrange(0, i as int)) && *worker == *old(worker),
            decreases args@.len() - i,
        {
            let ghost pre_out = out@;
            proof {
                if spec_steps_shape(args@) {
                    assert(args@[i as int].value matches NodeValue::Children(_));
                    assert(args@.subrange(0, i + 1int).drop_last() =~= args@.subrange(
                        0,
                        i as int,
                    ));
                    assert(args@.subrange(0, i + 1int).last() == args@[i as int]);
                }
            }
            let step_node: Node = match &args[i].value {
                NodeValue::Owned(name) => {
                    let stored: Node = match worker.ctx.get(name.as_str()) {
                        Some(StoredValue::Node(n)) => clone_node(n),
                        _ => {
                            return Err(());
                        },
                    };
                    match &stored.value {
                        NodeValue::Owned(_) => {
                            return Err(());
                        },
                        NodeValue::Children(_) => stored,
                    }
                },
                NodeValue::Children(_) => clone_node(&args[i]),
            };
            let children: &Vec<Node> = match &step_node.value {
                NodeValue::Owned(_) => {
                    return Err(());
                },
                NodeValue::Children(c) => c,
            };
            if children.len() != 3 {
                return Err(());
            }
            proof {
                if spec_steps_shape(args@) {
                    let cs = args@[i as int].value->Children_0;
                    assert(node_equiv(step_node, args@[i as int]));
                    assert(children@.len() == cs@.len());
                    assert(node_equiv(children@[1], cs@[1]));
                    assert(node_equiv(children@[2], cs@[2]));
                    assert(children@[1].value matches NodeValue::Owned(_));
                    assert(children@[2].value matches NodeValue::Owned(_));
                    assert(literal_text(children@[1]) == literal_text(cs@[1]));
                    assert(literal_text(children@[2]) == literal_text(cs@[2]));
                }
            }
            let title: String = match &children[1].value {
                NodeValue::Owned(s) => s.clone(),
                NodeValue::Children(_) => {
                    if fuel == 0 {
                        String::new()
                    } else {
                        worker.evaluate(&children[1], fuel - 1)
                    }
                },
            };
            let body: String = match &children[2].value {
                NodeValue::Owned(s) => s.clone(),
                NodeValue::Children(_) => {
                    if fuel == 0 {
                        String::new()
                    } else {
                        worker.evaluate(&children[2], fuel - 1)
                    }
                },
            };
            out.append("<div class=\"steps__step\"><div class=\"steps__bullet\">");
            out.append("<div class=\"steps__stepnumber\">");
            out.append(u64_to_dec((i as u64) + 1).as_str());
            out.append("</div></div>");
            out.append("<h4>");
            out.append(title.as_str());
            out.append("</h4><div>");
            out.append(body.as_str());
            out.append("</div></div>");
            proof {
                if spec_steps_shape(args@) {
                    assert(out@ =~= pre_out + spec_step_item(args@[i as int], (i + 1) as nat));
                    assert(out@ =~= "<div class=\"steps\">"@ + spec_steps_items(
                        args@.subrange(0, i + 1int),
                    ));
                }
            }
            i += 1;
        }
        proof {
            assert(args@.subrange(0, args@.len() as int) =~= args@);
        }
        out.append("</div>");
        Ok(out)
    }
}

/// The image element for an escaped source path, escaped alt text, and
/// optional width attribute.
pub open spec fn spec_figure_html(src: Seq<char>, alt: Seq<char>, width: Seq<char>) -> Seq<
    char,
> {
    "<img src=\""@ + src + "\" alt=\""@ + alt + "\""@ + width + ">"@
}

impl Figure {
    /// `(figure SRC ALT [WIDTH])`: an image under the static asset
    /// directory, addressed relative to the current page, its path and
    /// alt text HTML-escaped, the width given in whole pixels.
    pub fn handle(&self, worker: &mut Worker, args: &[Node], fuel: u32) -> (r: Result<
        String,
        (),
    >)
        requires
            old(worker).wf(),
        ensures
            final(worker).wf(),
            args@.len() < 2 ==> r is Err,
            (args@.len() == 2 && all_literal(args@) && old(worker).current_slug is Some) ==> (
            r matches Ok(s) && s@ == spec_figure_html(
                crate::toctree::spec_path_to(
                    old(worker).current_slug->Some_0@,
                    "_static/"@ + spec_escape(literal_text(args@[0])),
                    true,
                ),
                spec_escape(literal_text(args@[1])),
                Seq::<char>::empty(),
            )),
            (args@.len() == 3 && all_literal(args@) && old(worker).current_slug is Some) ==> ({
                match crate::strutil::spec_parse_u16(literal_text(args@[2])) {
                    Some(width) => r matches Ok(s) && s@ == spec_figure_html(
                        crate::toctree::spec_path_to(
                            old(worker).current_slug->Some_0@,
                            "_static/"@ + spec_escape(literal_text(args@[0])),
                            true,
                        ),
                        spec_escape(literal_text(args@[1])),
                        " width="@ + spec_dec_digits(width as nat) + "px"@,
                    ),
                    None => r is Err,
                }
            }),
        decreases fuel, 1int,
    {
        let src_raw = match consume_string(worker, args, 0, fuel) {
            Some(s) => s,
            None => {
                return Err(());
            },
        };
        let alt_raw = match consume_string(worker, args, 1, fuel) {
            Some(s) => s,
            None => {
                return Err(());
            },
        };
        let slug: Slug = match &worker.current_slug {
            Some(s) => s.clone(),
            None => {
                return Err(());
            },
        };
        let mut dest = String::new();
        dest.append("_static/");
        dest.append(escape_string(src_raw.as_str()).as_str());
        let src = slug.path_to(dest.as_str(), true);
        let alt = escape_string(alt_raw.as_str());
        let width = consume_string(worker, args, 2, fuel);
        let width_term: String = match width {
            Some(w) => {
                match crate::strutil::parse_u16(w.as_str()) {
                    Some(n) => {
                        let mut t = String::new();
                        t.append(" width=");
                        t.append(u64_to_dec(n as u64).as_str());
                        t.append("px");
                        proof {
                            assert(t@ =~= " width="@ + spec_dec_digits(n as nat) + "px"@);
                        }
                        t
                    },
                    None => {
                        return Err(());
                    },
                }
            },
            None => String::new(),
        };
        let mut out = String::new();
        out.append("<img src=\"");
        out.append(src.as_str());
        out.append("\" alt=\"");
        out.append(alt.as_str());
        out.append("\"");
        out.append(width_term.as_str());
        out.append(">");
        proof {
            assert(out@ =~= spec_figure_html(src@, alt@, width_term@));
            if all_literal(args@) && old(worker).current_slug is Some && args@.len() >= 2 {
                assert(dest@ =~= "_static/"@ + spec_escape(literal_text(args@[0])));
                assert(src@ == crate::toctree::spec_path_to(
                    old(worker).current_slug->Some_0@,
                    dest@,
                    true,
                ));
            }
        }
        Ok(out)
    }
}

impl DirectiveKind {
    /// Dispatch to the named handler.
    pub fn handle(&self, worker: &mut Worker, args: &[Node], fuel: u32) -> (r: Result<
        String,
        (),
    >)
        requires
            old(worker).wf(),
        ensures
            final(worker).wf(),
            *self matches DirectiveKind::Concat(_) ==> r is Ok,
            *self matches DirectiveKind::Concat(_) && all_literal(args@) ==> (r matches Ok(s)
                && s@ == spec_literal_join(args@, Seq::<char>::empty()) && *final(worker)
                == *old(worker)),
        decreases fuel, 3int,
    {
        match self {
            DirectiveKind::Dummy(d) => d.handle(worker, args, fuel),
            DirectiveKind::Code(d) => d.handle(worker, args, fuel),
            DirectiveKind::Version(d) => d.handle(worker, args, fuel),
            DirectiveKind::Admonition(d) => d.handle(worker, args, fuel),
            DirectiveKind::Concat(d) => d.handle(worker, args, fuel),
            DirectiveKind::Template(d) => d.handle(worker, args, fuel),
            DirectiveKind::DefineTemplate(d) => d.handle(worker, args, fuel),
            DirectiveKind::DefinitionList(d) => d.handle(worker, args, fuel),
            DirectiveKind::Include(d) => d.handle(worker, args, fuel),
            DirectiveKind::Import(d) => d.handle(worker, args, fuel),
            DirectiveKind::Let(d) => d.handle(worker, args, fuel),
            DirectiveKind::Define(d) => d.handle(worker, args, fuel),
            DirectiveKind::ThemeConfig(d) => d.handle(worker, args, fuel),
            DirectiveKind::TocTree(d) => d.handle(worker, args, fuel),
            DirectiveKind::Heading(d) => d.handle(worker, args, fuel),
            DirectiveKind::RefDefDirective(d) => d.handle(worker, args, fuel),
            DirectiveKind::RefDirective(d) => d.handle(worker, args, fuel),
            DirectiveKind::Steps(d) => d.handle(worker, args, fuel),
            DirectiveKind::Figure(d) => d.handle(worker, args, fuel),
            DirectiveKind::FormattingMarker(d) => d.handle(worker, args, fuel),
            DirectiveKind::Link(d) => d.handle(worker, args, fuel),
            DirectiveKind::List(d) => d.handle(worker, args, fuel),
            DirectiveKind::Glossary(d) => d.handle(worker, args, fuel),
            DirectiveKind::If(d) => d.handle(worker, args, fuel),
            DirectiveKind::Not(d) => d.handle(worker, args, fuel),
            DirectiveKind::Equals(d) => d.handle(worker, args, fuel),
            DirectiveKind::NotEquals(d) => d.handle(worker, args, fuel),
        }
    }
}


/// Every binding the standard prelude makes: each markup name resolves
/// to its directive, with the configured titles, tags and levels, and the
/// version directive holding `version` split at its dots.
pub open spec fn spec_standard_prelude(ev: crate::evaluator::Evaluator, version: Seq<char>) -> bool {
    &&& spec_ctx_get(ev.prelude.entries@, "code"@) matches Some(
            StoredValue::Directive(DirectiveKind::Code(_)),
        )
    &&& spec_ctx_get(ev.prelude.entries@, "table"@) matches Some(
            StoredValue::Directive(DirectiveKind::Dummy(_)),
        )
    &&& spec_ctx_get(ev.prelude.entries@, "version"@) matches Some(
            StoredValue::Directive(DirectiveKind::Version(v)),
        ) && v.version@.map_values(|q: String| q@) == crate::strutil::spec_split(version, '.')
    &&& spec_ctx_get(ev.prelude.entries@, "note"@) matches Some(
            StoredValue::Directive(DirectiveKind::Admonition(a)),
        ) && a.title@ == "Note"@ && a.class@ == "note"@
    &&& spec_ctx_get(ev.prelude.entries@, "warning"@) matches Some(
            StoredValue::Directive(DirectiveKind::Admonition(a)),
        ) && a.title@ == "Warning"@ && a.class@ == "warning"@
    &&& spec_ctx_get(ev.prelude.entries@, "define-template"@) matches Some(
            StoredValue::Directive(DirectiveKind::DefineTemplate(_)),
        )
    &&& spec_ctx_get(ev.prelude.entries@, "definition-list"@) matches Some(
            StoredValue::Directive(DirectiveKind::DefinitionList(_)),
        )
    &&& spec_ctx_get(ev.prelude.entries@, "include"@) matches Some(
            StoredValue::Directive(DirectiveKind::Include(_)),
        )
    &&& spec_ctx_get(ev.prelude.entries@, "import"@) matches Some(
            StoredValue::Directive(DirectiveKind::Import(_)),
        )
    &&& spec_ctx_get(ev.prelude.entries@, "null"@) matches Some(
            StoredValue::Directive(DirectiveKind::Dummy(_)),
        )
    &&& spec_ctx_get(ev.prelude.entries@, "let"@) matches Some(
            StoredValue::Directive(DirectiveKind::Let(_)),
        )
    &&& spec_ctx_get(ev.prelude.entries@, "define"@) matches Some(
            StoredValue::Directive(DirectiveKind::Define(_)),
        )
    &&& spec_ctx_get(ev.prelude.entries@, "theme-config"@) matches Some(
            StoredValue::Directive(DirectiveKind::ThemeConfig(_)),
        )
    &&& spec_ctx_get(ev.prelude.entries@, "toctree"@) matches Some(
            StoredValue::Directive(DirectiveKind::TocTree(_)),
        )
    &&& spec_ctx_get(ev.prelude.entries@, "define-ref"@) matches Some(
            StoredValue::Directive(DirectiveKind::RefDefDirective(_)),
        )
    &&& spec_ctx_get(ev.prelude.entries@, "ref"@) matches Some(
            StoredValue::Directive(DirectiveKind::RefDirective(_)),
        )
    &&& spec_ctx_get(ev.prelude.entries@, "link"@) matches Some(
            StoredValue::Directive(DirectiveKind::Link(_)),
        )
    &&& spec_ctx_get(ev.prelude.entries@, "figure"@) matches Some(
            StoredValue::Directive(DirectiveKind::Figure(_)),
        )
    &&& spec_ctx_get(ev.prelude.entries@, "ul"@) matches Some(
            StoredValue::Directive(DirectiveKind::List(l)),
        ) && l.tag@ == "ul"@
    &&& spec_ctx_get(ev.prelude.entries@, "ol"@) matches Some(
            StoredValue::Directive(DirectiveKind::List(l)),
        ) && l.tag@ == "ol"@
    &&& spec_ctx_get(ev.prelude.entries@, "glossary"@) matches Some(
            StoredValue::Directive(DirectiveKind::Glossary(_)),
        )
    &&& spec_ctx_get(ev.prelude.entries@, "steps"@) matches Some(
            StoredValue::Directive(DirectiveKind::Steps(_)),
        )
    &&& spec_ctx_get(ev.prelude.entries@, "``"@) matches Some(
            StoredValue::Directive(DirectiveKind::FormattingMarker(f)),
        ) && f.tag@ == "code"@
    &&& spec_ctx_get(ev.prelude.entries@, "**"@) matches Some(
            StoredValue::Directive(DirectiveKind::FormattingMarker(f)),
        ) && f.tag@ == "strong"@
    &&& spec_ctx_get(ev.prelude.entries@, "__"@) matches Some(
            StoredValue::Directive(DirectiveKind::FormattingMarker(f)),
        ) && f.tag@ == "em"@
    &&& spec_ctx_get(ev.prelude.entries@, "h1"@) matches Some(
            StoredValue::Directive(DirectiveKind::Heading(h)),
        ) && h.level == 1
    &&& spec_ctx_get(ev.prelude.entries@, "h2"@) matches Some(
            StoredValue::Directive(DirectiveKind::Heading(h)),
        ) && h.level == 2
    &&& spec_ctx_get(ev.prelude.entries@, "h3"@) matches Some(
            StoredValue::Directive(DirectiveKind::Heading(h)),
        ) && h.level == 3
    &&& spec_ctx_get(ev.prelude.entries@, "h4"@) matches Some(
            StoredValue::Directive(DirectiveKind::Heading(h)),
        ) && h.level == 4
    &&& spec_ctx_get(ev.prelude.entries@, "h5"@) matches Some(
            StoredValue::Directive(DirectiveKind::Heading(h)),
        ) && h.level == 5
    &&& spec_ctx_get(ev.prelude.entries@, "h6"@) matches Some(
            StoredValue::Directive(DirectiveKind::Heading(h)),
        ) && h.level == 6
    &&& spec_ctx_get(ev.prelude.entries@, "if"@) matches Some(
            StoredValue::Directive(DirectiveKind::If(_)),
        )
    &&& spec_ctx_get(ev.prelude.entries@, "not"@) matches Some(
            StoredValue::Directive(DirectiveKind::Not(_)),
        )
    &&& spec_ctx_get(ev.prelude.entries@, "="@) matches Some(
            StoredValue::Directive(DirectiveKind::Equals(_)),
        )
    &&& spec_ctx_get(ev.prelude.entries@, "!="@) matches Some(
            StoredValue::Directive(DirectiveKind::NotEquals(_)),
        )
    &&& spec_ctx_get(ev.prelude.entries@, "concat"@) matches Some(
            StoredValue::Directive(DirectiveKind::Concat(_)),
        )
}

/// One group of the standard prelude's registrations.
#[verifier::rlimit(100)]
fn register_prelude_basics(ev: &mut crate::evaluator::Evaluator, version: &str)
    requires
        old(ev).wf(),
    ensures
        final(ev).wf(),
        spec_ctx_get(final(ev).prelude.entries@, "code"@) matches Some(
            StoredValue::Directive(DirectiveKind::Code(_)),
        ),
        spec_ctx_get(final(ev).prelude.entries@, "table"@) matches Some(
            StoredValue::Directive(DirectiveKind::Dummy(_)),
        ),
        spec_ctx_get(final(ev).prelude.entries@, "version"@) matches Some(
            StoredValue::Directive(DirectiveKind::Version(v)),
        ) && v.version@.map_values(|q: String| q@) == crate::strutil::spec_split(version@, '.'),
        spec_ctx_get(final(ev).prelude.entries@, "note"@) matches Some(
            StoredValue::Directive(DirectiveKind::Admonition(a)),
        ) && a.title@ == "Note"@ && a.class@ == "note"@,
        spec_ctx_get(final(ev).prelude.entries@, "warning"@) matches Some(
            StoredValue::Directive(DirectiveKind::Admonition(a)),
        ) && a.title@ == "Warning"@ && a.class@ == "warning"@,
        spec_ctx_get(final(ev).prelude.entries@, "define-template"@) matches Some(
            StoredValue::Directive(DirectiveKind::DefineTemplate(_)),
        ),
        spec_ctx_get(final(ev).prelude.entries@, "definition-list"@) matches Some(
            StoredValue::Directive(DirectiveKind::DefinitionList(_)),
        ),
        forall|k: Seq<char>|
            (k != "code"@ && k != "table"@ && k != "version"@ && k != "note"@ && k != "warning"@ && k != "define-template"@ && k != "definition-list"@) ==> spec_ctx_get(final(ev).prelude.entries@, k) == #[trigger] spec_ctx_get(
                old(ev).prelude.entries@,
                k,
            ),
        final(ev).refdefs == old(ev).refdefs,
        final(ev).toctree == old(ev).toctree,
        final(ev).placeholder_prefix == old(ev).placeholder_prefix,
        final(ev).pending_links == old(ev).pending_links,
{
    proof {
        reveal_strlit("code");
        reveal_strlit("table");
        reveal_strlit("version");
        reveal_strlit("note");
        reveal_strlit("warning");
        reveal_strlit("define-template");
        reveal_strlit("definition-list");
        assert("code"@.len() == 4);
        assert("table"@.len() == 5);
        assert("version"@.len() == 7);
        assert("note"@.len() == 4);
        assert("warning"@.len() == 7);
        assert("define-template"@.len() == 15);
        assert("definition-list"@.len() == 15);
        assert("code"@ != "note"@) by {
            assert("code"@[0] != "note"@[0]);
        }
        assert("version"@ != "warning"@) by {
            assert("version"@[0] != "warning"@[0]);
        }
        assert("define-template"@ != "definition-list"@) by {
            assert("define-template"@[5] != "definition-list"@[5]);
        }
    }
    ev.register_prelude("code", DirectiveKind::Code(Code));
    ev.register_prelude("table", DirectiveKind::Dummy(Dummy));
    ev.register_prelude("version", DirectiveKind::Version(Version::new(version)));
    ev.register_prelude("note", DirectiveKind::Admonition(Admonition::new("Note", "note")));
    ev.register_prelude("warning", DirectiveKind::Admonition(Admonition::new("Warning", "warning")));
    ev.register_prelude("define-template", DirectiveKind::DefineTemplate(DefineTemplate));
    ev.register_prelude("definition-list", DirectiveKind::DefinitionList(DefinitionList));
}

/// One group of the standard prelude's registrations.
#[verifier::rlimit(100)]
fn register_prelude_bindings(ev: &mut crate::evaluator::Evaluator)
    requires
        old(ev).wf(),
    ensures
        final(ev).wf(),
        spec_ctx_get(final(ev).prelude.entries@, "include"@) matches Some(
            StoredValue::Directive(DirectiveKind::Include(_)),
        ),
        spec_ctx_get(final(ev).prelude.entries@, "import"@) matches Some(
            StoredValue::Directive(DirectiveKind::Import(_)),
        ),
        spec_ctx_get(final(ev).prelude.entries@, "null"@) matches Some(
            StoredValue::Directive(DirectiveKind::Dummy(_)),
        ),
        spec_ctx_get(final(ev).prelude.entries@, "let"@) matches Some(
            StoredValue::Directive(DirectiveKind::Let(_)),
        ),
        spec_ctx_get(final(ev).prelude.entries@, "define"@) matches Some(
            StoredValue::Directive(DirectiveKind::Define(_)),
        ),
        spec_ctx_get(final(ev).prelude.entries@, "theme-config"@) matches Some(
            StoredValue::Directive(DirectiveKind::ThemeConfig(_)),
        ),
        spec_ctx_get(final(ev).prelude.entries@, "toctree"@) matches Some(
            StoredValue::Directive(DirectiveKind::TocTree(_)),
        ),
        forall|k: Seq<char>|
            (k != "include"@ && k != "import"@ && k != "null"@ && k != "let"@ && k != "define"@ && k != "theme-config"@ && k != "toctree"@) ==> spec_ctx_get(final(ev).prelude.entries@, k) == #[trigger] spec_ctx_get(
                old(ev).prelude.entries@,
                k,
            ),
        final(ev).refdefs == old(ev).refdefs,
        final(ev).toctree == old(ev).toctree,
        final(ev).placeholder_prefix == old(ev).placeholder_prefix,
        final(ev).pending_links == old(ev).pending_links,
{
    proof {
        reveal_strlit("include");
        reveal_strlit("import");
        reveal_strlit("null");
        reveal_strlit("let");
        reveal_strlit("define");
        reveal_strlit("theme-config");
        reveal_strlit("toctree");
        assert("include"@.len() == 7);
        assert("import"@.len() == 6);
        assert("null"@.len() == 4);
        assert("let"@.len() == 3);
        assert("define"@.len() == 6);
        assert("theme-config"@.len() == 12);
        assert("toctree"@.len() == 7);
        assert("include"@ != "toctree"@) by {
            assert("include"@[0] != "toctree"@[0]);
        }
        assert("import"@ != "define"@) by {
            assert("import"@[0] != "define"@[0]);
        }
    }
    ev.register_prelude("include", DirectiveKind::Include(Include));
    ev.register_prelude("import", DirectiveKind::Import(Import));
    ev.register_prelude("null", DirectiveKind::Dummy(Dummy));
    ev.register_prelude("let", DirectiveKind::Let(Let));
    ev.register_prelude("define", DirectiveKind::Define(Define));
    ev.register_prelude("theme-config", DirectiveKind::ThemeConfig(ThemeConfig));
    ev.register_prelude("toctree", DirectiveKind::TocTree(TocTree));
}

/// One group of the standard prelude's registrations.
#[verifier::rlimit(100)]
fn register_prelude_references(ev: &mut crate::evaluator::Evaluator)
    requires
        old(ev).wf(),
    ensures
        final(ev).wf(),
        spec_ctx_get(final(ev).prelude.entries@, "define-ref"@) matches Some(
            StoredValue::Directive(DirectiveKind::RefDefDirective(_)),
        ),
        spec_ctx_get(final(ev).prelude.entries@, "ref"@) matches Some(
            StoredValue::Directive(DirectiveKind::RefDirective(_)),
        ),
        spec_ctx_get(final(ev).prelude.entries@, "link"@) matches Some(
            StoredValue::Directive(DirectiveKind::Link(_)),
        ),
        spec_ctx_get(final(ev).prelude.entries@, "figure"@) matches Some(
            StoredValue::Directive(DirectiveKind::Figure(_)),
        ),
        spec_ctx_get(final(ev).prelude.entries@, "ul"@) matches Some(
            StoredValue::Directive(DirectiveKind::List(l)),
        ) && l.tag@ == "ul"@,
        spec_ctx_get(final(ev).prelude.entries@, "ol"@) matches Some(
            StoredValue::Directive(DirectiveKind::List(l)),
        ) && l.tag@ == "ol"@,
        spec_ctx_get(final(ev).prelude.entries@, "glossary"@) matches Some(
            StoredValue::Directive(DirectiveKind::Glossary(_)),
        ),
        forall|k: Seq<char>|
            (k != "define-ref"@ && k != "ref"@ && k != "link"@ && k != "figure"@ && k != "ul"@ && k != "ol"@ && k != "glossary"@) ==> spec_ctx_get(final(ev).prelude.entries@, k) == #[trigger] spec_ctx_get(
                old(ev).prelude.entries@,
                k,
            ),
        final(ev).refdefs == old(ev).refdefs,
        final(ev).toctree == old(ev).toctree,
        final(ev).placeholder_prefix == old(ev).placeholder_prefix,
        final(ev).pending_links == old(ev).pending_links,
{
    proof {
        reveal_strlit("define-ref");
        reveal_strlit("ref");
        reveal_strlit("link");
        reveal_strlit("figure");
        reveal_strlit("ul");
        reveal_strlit("ol");
        reveal_strlit("glossary");
        assert("define-ref"@.len() == 10);
        assert("ref"@.len() == 3);
        assert("link"@.len() == 4);
        assert("figure"@.len() == 6);
        assert("ul"@.len() == 2);
        assert("ol"@.len() == 2);
        assert("glossary"@.len() == 8);
        assert("ul"@ != "ol"@) by {
            assert("ul"@[0] != "ol"@[0]);
        }
    }
    ev.register_prelude("define-ref", DirectiveKind::RefDefDirective(RefDefDirective));
    ev.register_prelude("ref", DirectiveKind::RefDirective(RefDirective));
    ev.register_prelude("link", DirectiveKind::Link(Link));
    ev.register_prelude("figure", DirectiveKind::Figure(Figure));
    ev.register_prelude("ul", DirectiveKind::List(List::new("ul")));
    ev.register_prelude("ol", DirectiveKind::List(List::new("ol")));
    ev.register_prelude("glossary", DirectiveKind::Glossary(glossary::Glossary));
}

/// One group of the standard prelude's registrations.
#[verifier::rlimit(100)]
fn register_prelude_structure(ev: &mut crate::evaluator::Evaluator)
    requires
        old(ev).wf(),
    ensures
        final(ev).wf(),
        spec_ctx_get(final(ev).prelude.entries@, "steps"@) matches Some(
            StoredValue::Directive(DirectiveKind::Steps(_)),
        ),
        spec_ctx_get(final(ev).prelude.entries@, "``"@) matches Some(
            StoredValue::Directive(DirectiveKind::FormattingMarker(f)),
        ) && f.tag@ == "code"@,
        spec_ctx_get(final(ev).prelude.entries@, "**"@) matches Some(
            StoredValue::Directive(DirectiveKind::FormattingMarker(f)),
        ) && f.tag@ == "strong"@,
        spec_ctx_get(final(ev).prelude.entries@, "__"@) matches Some(
            StoredValue::Directive(DirectiveKind::FormattingMarker(f)),
        ) && f.tag@ == "em"@,
        spec_ctx_get(final(ev).prelude.entries@, "h1"@) matches Some(
            StoredValue::Directive(DirectiveKind::Heading(h)),
        ) && h.level == 1,
        spec_ctx_get(final(ev).prelude.entries@, "h2"@) matches Some(
            StoredValue::Directive(DirectiveKind::Heading(h)),
        ) && h.level == 2,
        spec_ctx_get(final(ev).prelude.entries@, "h3"@) matches Some(
            StoredValue::Directive(DirectiveKind::Heading(h)),
        ) && h.level == 3,
        forall|k: Seq<char>|
            (k != "steps"@ && k != "``"@ && k != "**"@ && k != "__"@ && k != "h1"@ && k != "h2"@ && k != "h3"@) ==> spec_ctx_get(final(ev).prelude.entries@, k) == #[trigger] spec_ctx_get(
                old(ev).prelude.entries@,
                k,
            ),
        final(ev).refdefs == old(ev).refdefs,
        final(ev).toctree == old(ev).toctree,
        final(ev).placeholder_prefix == old(ev).placeholder_prefix,
        final(ev).pending_links == old(ev).pending_links,
{
    proof {
        reveal_strlit("steps");
        reveal_strlit("``");
        reveal_strlit("**");
        reveal_strlit("__");
        reveal_strlit("h1");
        reveal_strlit("h2");
        reveal_strlit("h3");
        assert("steps"@.len() == 5);
        assert("``"@.len() == 2);
        assert("**"@.len() == 2);
        assert("__"@.len() == 2);
        assert("h1"@.len() == 2);
        assert("h2"@.len() == 2);
        assert("h3"@.len() == 2);
        assert("``"@ != "**"@) by {
            assert("``"@[0] != "**"@[0]);
        }
        assert("``"@ != "__"@) by {
            assert("``"@[0] != "__"@[0]);
        }
        assert("``"@ != "h1"@) by {
            assert("``"@[0] != "h1"@[0]);
        }
        assert("``"@ != "h2"@) by {
            assert("``"@[0] != "h2"@[0]);
        }
        assert("``"@ != "h3"@) by {
            assert("``"@[0] != "h3"@[0]);
        }
        assert("**"@ != "__"@) by {
            assert("**"@[0] != "__"@[0]);
        }
        assert("**"@ != "h1"@) by {
            assert("**"@[0] != "h1"@[0]);
        }
        assert("**"@ != "h2"@) by {
            assert("**"@[0] != "h2"@[0]);
        }
        assert("**"@ != "h3"@) by {
            assert("**"@[0] != "h3"@[0]);
        }
        assert("__"@ != "h1"@) by {
            assert("__"@[0] != "h1"@[0]);
        }
        assert("__"@ != "h2"@) by {
            assert("__"@[0] != "h2"@[0]);
        }
        assert("__"@ != "h3"@) by {
            assert("__"@[0] != "h3"@[0]);
        }
        assert("h1"@ != "h2"@) by {
            assert("h1"@[1] != "h2"@[1]);
        }
        assert("h1"@ != "h3"@) by {
            assert("h1"@[1] != "h3"@[1]);
        }
        assert("h2"@ != "h3"@) by {
            assert("h2"@[1] != "h3"@[1]);
        }
    }
    ev.register_prelude("steps", DirectiveKind::Steps(Steps));
    ev.register_prelude("``", DirectiveKind::FormattingMarker(FormattingMarker::new("code")));
    ev.register_prelude("**", DirectiveKind::FormattingMarker(FormattingMarker::new("strong")));
    ev.register_prelude("__", DirectiveKind::FormattingMarker(FormattingMarker::new("em")));
    ev.register_prelude("h1", DirectiveKind::Heading(Heading::new(1)));
    ev.register_prelude("h2", DirectiveKind::Heading(Heading::new(2)));
    ev.register_prelude("h3", DirectiveKind::Heading(Heading::new(3)));
}

/// One group of the standard prelude's registrations.
#[verifier::rlimit(100)]
fn register_prelude_logic(ev: &mut crate::evaluator::Evaluator)
    requires
        old(ev).wf(),
    ensures
        final(ev).wf(),
        spec_ctx_get(final(ev).prelude.entries@, "h4"@) matches Some(
            StoredValue::Directive(DirectiveKind::Heading(h)),
        ) && h.level == 4,
        spec_ctx_get(final(ev).prelude.entries@, "h5"@) matches Some(
            StoredValue::Directive(DirectiveKind::Heading(h)),
        ) && h.level == 5,
        spec_ctx_get(final(ev).prelude.entries@, "h6"@) matches Some(
            StoredValue::Directive(DirectiveKind::Heading(h)),
        ) && h.level == 6,
        spec_ctx_get(final(ev).prelude.entries@, "if"@) matches Some(
            StoredValue::Directive(DirectiveKind::If(_)),
        ),
        spec_ctx_get(final(ev).prelude.entries@, "not"@) matches Some(
            StoredValue::Directive(DirectiveKind::Not(_)),
        ),
        spec_ctx_get(final(ev).prelude.entries@, "="@) matches Some(
            StoredValue::Directive(DirectiveKind::Equals(_)),
        ),
        spec_ctx_get(final(ev).prelude.entries@, "!="@) matches Some(
            StoredValue::Directive(DirectiveKind::NotEquals(_)),
        ),
        spec_ctx_get(final(ev).prelude.entries@, "concat"@) matches Some(
            StoredValue::Directive(DirectiveKind::Concat(_)),
        ),
        forall|k: Seq<char>|
            (k != "h4"@ && k != "h5"@ && k != "h6"@ && k != "if"@ && k != "not"@ && k != "="@ && k != "!="@ && k != "concat"@) ==> spec_ctx_get(final(ev).prelude.entries@, k) == #[trigger] spec_ctx_get(
                old(ev).prelude.entries@,
                k,
            ),
        final(ev).refdefs == old(ev).refdefs,
        final(ev).toctree == old(ev).toctree,
        final(ev).placeholder_prefix == old(ev).placeholder_prefix,
        final(ev).pending_links == old(ev).pending_links,
{
    proof {
        reveal_strlit("h4");
        reveal_strlit("h5");
        reveal_strlit("h6");
        reveal_strlit("if");
        reveal_strlit("not");
        reveal_strlit("=");
        reveal_strlit("!=");
        reveal_strlit("concat");
        assert("h4"@.len() == 2);
        assert("h5"@.len() == 2);
        assert("h6"@.len() == 2);
        assert("if"@.len() == 2);
        assert("not"@.len() == 3);
        assert("="@.len() == 1);
        assert("!="@.len() == 2);
        assert("concat"@.len() == 6);
        assert("h4"@ != "h5"@) by {
            assert("h4"@[1] != "h5"@[1]);
        }
        assert("h4"@ != "h6"@) by {
            assert("h4"@[1] != "h6"@[1]);
        }
        assert("h4"@ != "if"@) by {
            assert("h4"@[0] != "if"@[0]);
        }
        assert("h4"@ != "!="@) by {
            assert("h4"@[0] != "!="@[0]);
        }
        assert("h5"@ != "h6"@) by {
            assert("h5"@[1] != "h6"@[1]);
        }
        assert("h5"@ != "if"@) by {
            assert("h5"@[0] != "if"@[0]);
        }
        assert("h5"@ != "!="@) by {
            assert("h5"@[0] != "!="@[0]);
        }
        assert("h6"@ != "if"@) by {
            assert("h6"@[0] != "if"@[0]);
        }
        assert("h6"@ != "!="@) by {
            assert("h6"@[0] != "!="@[0]);
        }
        assert("if"@ != "!="@) by {
            assert("if"@[0] != "!="@[0]);
        }
    }
    ev.register_prelude("h4", DirectiveKind::Heading(Heading::new(4)));
    ev.register_prelude("h5", DirectiveKind::Heading(Heading::new(5)));
    ev.register_prelude("h6", DirectiveKind::Heading(Heading::new(6)));
    ev.register_prelude("if", DirectiveKind::If(logic::If));
    ev.register_prelude("not", DirectiveKind::Not(logic::Not));
    ev.register_prelude("=", DirectiveKind::Equals(logic::Equals));
    ev.register_prelude("!=", DirectiveKind::NotEquals(logic::NotEquals));
    ev.register_prelude("concat", DirectiveKind::Concat(Concat));
}

/// Register the standard prelude: every directive of the build, under its
/// markup name. Done once, before any page is evaluated.
#[verifier::rlimit(100)]
pub fn register_standard_prelude(ev: &mut crate::evaluator::Evaluator, version: &str)
    requires
        old(ev).wf(),
    ensures
        final(ev).wf(),
        spec_standard_prelude(*final(ev), version@),
        final(ev).refdefs == old(ev).refdefs,
        final(ev).toctree == old(ev).toctree,
        final(ev).placeholder_prefix == old(ev).placeholder_prefix,
        final(ev).pending_links == old(ev).pending_links,
{
    proof {
        reveal_strlit("code");
        reveal_strlit("table");
        reveal_strlit("version");
        reveal_strlit("note");
        reveal_strlit("warning");
        reveal_strlit("define-template");
        reveal_strlit("definition-list");
        reveal_strlit("include");
        reveal_strlit("import");
        reveal_strlit("null");
        reveal_strlit("let");
        reveal_strlit("define");
        reveal_strlit("theme-config");
        reveal_strlit("toctree");
        reveal_strlit("define-ref");
        reveal_strlit("ref");
        reveal_strlit("link");
        reveal_strlit("figure");
        reveal_strlit("ul");
        reveal_strlit("ol");
        reveal_strlit("glossary");
        reveal_strlit("steps");
        reveal_strlit("``");
        reveal_strlit("**");
        reveal_strlit("__");
        reveal_strlit("h1");
        reveal_strlit("h2");
        reveal_strlit("h3");
        reveal_strlit("h4");
        reveal_strlit("h5");
        reveal_strlit("h6");
        reveal_strlit("if");
        reveal_strlit("not");
        reveal_strlit("=");
        reveal_strlit("!=");
        reveal_strlit("concat");
        assert("code"@.len() == 4);
        assert("table"@.len() == 5);
        assert("version"@.len() == 7);
        assert("note"@.len() == 4);
        assert("warning"@.len() == 7);
        assert("define-template"@.len() == 15);
        assert("definition-list"@.len() == 15);
        assert("include"@.len() == 7);
        assert("import"@.len() == 6);
        assert("null"@.len() == 4);
        assert("let"@.len() == 3);
        assert("define"@.len() == 6);
        assert("theme-config"@.len() == 12);
        assert("toctree"@.len() == 7);
        assert("define-ref"@.len() == 10);
        assert("ref"@.len() == 3);
        assert("link"@.len() == 4);
        assert("figure"@.len() == 6);
        assert("ul"@.len() == 2);
        assert("ol"@.len() == 2);
        assert("glossary"@.len() == 8);
        assert("steps"@.len() == 5);
        assert("``"@.len() == 2);
        assert("**"@.len() == 2);
        assert("__"@.len() == 2);
        assert("h1"@.len() == 2);
        assert("h2"@.len() == 2);
        assert("h3"@.len() == 2);
        assert("h4"@.len() == 2);
        assert("h5"@.len() == 2);
        assert("h6"@.len() == 2);
        assert("if"@.len() == 2);
        assert("not"@.len() == 3);
        assert("="@.len() == 1);
        assert("!="@.len() == 2);
        assert("concat"@.len() == 6);
        assert("code"@ != "null"@) by {
            assert("code"@[0] != "null"@[0]);
        }
        assert("version"@ != "include"@) by {
            assert("version"@[0] != "include"@[0]);
        }
        assert("version"@ != "toctree"@) by {
            assert("version"@[0] != "toctree"@[0]);
        }
        assert("note"@ != "null"@) by {
            assert("note"@[1] != "null"@[1]);
        }
        assert("warning"@ != "include"@) by {
            assert("warning"@[0] != "include"@[0]);
        }
        assert("warning"@ != "toctree"@) by {
            assert("warning"@[0] != "toctree"@[0]);
        }
        assert("code"@ != "link"@) by {
            assert("code"@[0] != "link"@[0]);
        }
        assert("note"@ != "link"@) by {
            assert("note"@[0] != "link"@[0]);
        }
        assert("table"@ != "steps"@) by {
            assert("table"@[0] != "steps"@[0]);
        }
        assert("import"@ != "figure"@) by {
            assert("import"@[0] != "figure"@[0]);
        }
        assert("null"@ != "link"@) by {
            assert("null"@[0] != "link"@[0]);
        }
        assert("let"@ != "ref"@) by {
            assert("let"@[0] != "ref"@[0]);
        }
        assert("define"@ != "figure"@) by {
            assert("define"@[0] != "figure"@[0]);
        }
        assert("import"@ != "concat"@) by {
            assert("import"@[0] != "concat"@[0]);
        }
        assert("let"@ != "not"@) by {
            assert("let"@[0] != "not"@[0]);
        }
        assert("define"@ != "concat"@) by {
            assert("define"@[0] != "concat"@[0]);
        }
        assert("ul"@ != "``"@) by {
            assert("ul"@[0] != "``"@[0]);
        }
        assert("ul"@ != "**"@) by {
            assert("ul"@[0] != "**"@[0]);
        }
        assert("ul"@ != "__"@) by {
            assert("ul"@[0] != "__"@[0]);
        }
        assert("ul"@ != "h1"@) by {
            assert("ul"@[0] != "h1"@[0]);
        }
        assert("ul"@ != "h2"@) by {
            assert("ul"@[0] != "h2"@[0]);
        }
        assert("ul"@ != "h3"@) by {
            assert("ul"@[0] != "h3"@[0]);
        }
        assert("ol"@ != "``"@) by {
            assert("ol"@[0] != "``"@[0]);
        }
        assert("ol"@ != "**"@) by {
            assert("ol"@[0] != "**"@[0]);
        }
        assert("ol"@ != "__"@) by {
            assert("ol"@[0] != "__"@[0]);
        }
        assert("ol"@ != "h1"@) by {
            assert("ol"@[0] != "h1"@[0]);
        }
        assert("ol"@ != "h2"@) by {
            assert("ol"@[0] != "h2"@[0]);
        }
        assert("ol"@ != "h3"@) by {
            assert("ol"@[0] != "h3"@[0]);
        }
        assert("ref"@ != "not"@) by {
            assert("ref"@[0] != "not"@[0]);
        }
        assert("figure"@ != "concat"@) by {
            assert("figure"@[0] != "concat"@[0]);
        }
        assert("ul"@ != "h4"@) by {
            assert("ul"@[0] != "h4"@[0]);
        }
        assert("ul"@ != "h5"@) by {
            assert("ul"@[0] != "h5"@[0]);
        }
        assert("ul"@ != "h6"@) by {
            assert("ul"@[0] != "h6"@[0]);
        }
        assert("ul"@ != "if"@) by {
            assert("ul"@[0] != "if"@[0]);
        }
        assert("ul"@ != "!="@) by {
            assert("ul"@[0] != "!="@[0]);
        }
        assert("ol"@ != "h4"@) by {
            assert("ol"@[0] != "h4"@[0]);
        }
        assert("ol"@ != "h5"@) by {
            assert("ol"@[0] != "h5"@[0]);
        }
        assert("ol"@ != "h6"@) by {
            assert("ol"@[0] != "h6"@[0]);
        }
        assert("ol"@ != "if"@) by {
            assert("ol"@[0] != "if"@[0]);
        }
        assert("ol"@ != "!="@) by {
            assert("ol"@[0] != "!="@[0]);
        }
        assert("``"@ != "h4"@) by {
            assert("``"@[0] != "h4"@[0]);
        }
        assert("``"@ != "h5"@) by {
            assert("``"@[0] != "h5"@[0]);
        }
        assert("``"@ != "h6"@) by {
            assert("``"@[0] != "h6"@[0]);
        }
        assert("``"@ != "if"@) by {
            assert("``"@[0] != "if"@[0]);
        }
        assert("``"@ != "!="@) by {
            assert("``"@[0] != "!="@[0]);
        }
        assert("**"@ != "h4"@) by {
            assert("**"@[0] != "h4"@[0]);
        }
        assert("**"@ != "h5"@) by {
            assert("**"@[0] != "h5"@[0]);
        }
        assert("**"@ != "h6"@) by {
            assert("**"@[0] != "h6"@[0]);
        }
        assert("**"@ != "if"@) by {
            assert("**"@[0] != "if"@[0]);
        }
        assert("**"@ != "!="@) by {
            assert("**"@[0] != "!="@[0]);
        }
        assert("__"@ != "h4"@) by {
            assert("__"@[0] != "h4"@[0]);
        }
        assert("__"@ != "h5"@) by {
            assert("__"@[0] != "h5"@[0]);
        }
        assert("__"@ != "h6"@) by {
            assert("__"@[0] != "h6"@[0]);
        }
        assert("__"@ != "if"@) by {
            assert("__"@[0] != "if"@[0]);
        }
        assert("__"@ != "!="@) by {
            assert("__"@[0] != "!="@[0]);
        }
        assert("h1"@ != "h4"@) by {
            assert("h1"@[1] != "h4"@[1]);
        }
        assert("h1"@ != "h5"@) by {
            assert("h1"@[1] != "h5"@[1]);
        }
        assert("h1"@ != "h6"@) by {
            assert("h1"@[1] != "h6"@[1]);
        }
        assert("h1"@ != "if"@) by {
            assert("h1"@[0] != "if"@[0]);
        }
        assert("h1"@ != "!="@) by {
            assert("h1"@[0] != "!="@[0]);
        }
        assert("h2"@ != "h4"@) by {
            assert("h2"@[1] != "h4"@[1]);
        }
        assert("h2"@ != "h5"@) by {
            assert("h2"@[1] != "h5"@[1]);
        }
        assert("h2"@ != "h6"@) by {
            assert("h2"@[1] != "h6"@[1]);
        }
        assert("h2"@ != "if"@) by {
            assert("h2"@[0] != "if"@[0]);
        }
        assert("h2"@ != "!="@) by {
            assert("h2"@[0] != "!="@[0]);
        }
        assert("h3"@ != "h4"@) by {
            assert("h3"@[1] != "h4"@[1]);
        }
        assert("h3"@ != "h5"@) by {
            assert("h3"@[1] != "h5"@[1]);
        }
        assert("h3"@ != "h6"@) by {
            assert("h3"@[1] != "h6"@[1]);
        }
        assert("h3"@ != "if"@) by {
            assert("h3"@[0] != "if"@[0]);
        }
        assert("h3"@ != "!="@) by {
            assert("h3"@[0] != "!="@[0]);
        }
    }
    register_prelude_basics(ev, version);
    register_prelude_bindings(ev);
    register_prelude_references(ev);
    register_prelude_structure(ev);
    register_prelude_logic(ev);
}


} // verus!
