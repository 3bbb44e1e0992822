//! The build pipeline's per-page work: deriving a slug from a source
//! path, building a page (parse, evaluate, close sections, inject
//! paragraphs), and linking it (template selection and placeholder
//! resolution). The embedding application walks the source tree, calls
//! these over every page, renders the template, and writes the files.

use vstd::prelude::*;
use crate::evaluator::{spec_concat_ready, spec_concat_result, spec_substitute, Evaluator, Worker};
use crate::inject_paragraphs::{inject_paragraphs, spec_inject};
use crate::outside::{glob_match_of, glob_matches, glob_valid};
use crate::page::{spec_rfind, Page, Slug};
use crate::parse::{is_text_node, Node, NodeValue};

verus! {

/// How deep evaluation may nest before a page errors out: each directive
/// invocation, stored-binding reference or inclusion costs one level.
pub const EVAL_FUEL: u32 = 4096;

/// The template selected for `path`: the name paired with the first valid
/// glob pattern matching the path, or `default`.
pub open spec fn spec_find_template(ts: Seq<(String, String)>, path: Seq<char>) -> Seq<char>
    decreases ts.len(),
{
    if ts.len() == 0 {
        "default"@
    } else if glob_valid(ts[0].0@) && glob_match_of(ts[0].0@, path) {
        ts[0].1@
    } else {
        spec_find_template(ts.drop_first(), path)
    }
}

/// Select the template for a source path from the configured
/// pattern table; an invalid pattern matches nothing.
pub fn find_template(templates: &Vec<(String, String)>, source_path: &str) -> (r: String)
    ensures
        r@ == spec_find_template(templates@, source_path@),
{
    let n = templates.len();
    proof {
        assert(templates@.skip(0) =~= templates@);
    }
    let mut i: usize = 0;
    while i < n
        invariant
            0 <= i <= n,
            n == templates@.len(),
            spec_find_template(templates@, source_path@) == spec_find_template(
                templates@.skip(i as int),
                source_path@,
            ),
        decreases n - i,
    {
        proof {
            assert(templates@.skip(i as int)[0] == templates@[i as int]);
            assert(templates@.skip(i as int).drop_first() =~= templates@.skip(i + 1int));
        }
        match glob_matches(templates[i].0.as_str(), source_path) {
            Some(true) => {
                return templates[i].1.clone();
            },
            Some(false) => {},
            None => {},
        }
        i += 1;
    }
    proof {
        assert(templates@.skip(n as int) =~= Seq::<(String, String)>::empty());
        reveal_strlit("default");
    }
    String::from_str("default")
}

/// Derive a page's slug from its source path: the content directory
/// prefix and the file extension are stripped.
pub open spec fn spec_derive_slug(path: Seq<char>, content_dir: Seq<char>) -> Seq<char> {
    let rel = if path.len() > content_dir.len() + 1 && path.subrange(
        0,
        content_dir.len() as int,
    ) == content_dir && path[content_dir.len() as int] == '/' {
        path.subrange(content_dir.len() as int + 1, path.len() as int)
    } else {
        path
    };
    let comp_start = match spec_rfind(rel, '/') {
        Some(i) => i + 1,
        None => 0,
    };
    let comp = rel.subrange(comp_start, rel.len() as int);
    match spec_rfind(comp, '.') {
        Some(j) => if j > 0 {
            rel.subrange(0, comp_start + j)
        } else {
            rel
        },
        None => rel,
    }
}

/// Exec mirror of [`spec_derive_slug`].
pub fn derive_slug(path: &str, content_dir: &str) -> (r: Slug)
    ensures
        r@ == spec_derive_slug(path@, content_dir@),
{
    let n = path.unicode_len();
    let cn = content_dir.unicode_len();
    let rel: &str = if n > cn && n - cn > 1 && {
        let prefix = path.substring_char(0, cn);
        let owned: String = prefix.to_owned();
        let cd: String = content_dir.to_owned();
        owned == cd
    } && path.get_char(cn) == '/' {
        path.substring_char(cn + 1, n)
    } else {
        path
    };
    let rn = rel.unicode_len();
    let comp_start: usize = match crate::page::rfind_str(rel, '/') {
        Some(i) => i + 1,
        None => 0,
    };
    proof {
        assert(rel@.subrange(0, rel@.len() as int) =~= rel@);
    }
    let comp = rel.substring_char(comp_start, rn);
    let stem: &str = match crate::page::rfind_str(comp, '.') {
        Some(j) => if j > 0 {
            rel.substring_char(0, comp_start + j)
        } else {
            rel
        },
        None => rel,
    };
    proof {
        assert(comp@.subrange(0, comp@.len() as int) =~= comp@);
    }
    Slug::new(stem.to_owned())
}

/// Parse `data` as the page at `source_path` and evaluate it. On input
/// that holds none of the four delimiter characters — plain literal text
/// — the result is exactly the input, provided the worker's context does
/// not shadow `concat` and the prelude binds it to the concatenation
/// directive: the parse/evaluate round trip is the identity on such
/// pages.
pub fn evaluate_source(worker: &mut Worker, source_path: &str, data: &str) -> (r: Result<
    String,
    String,
>)
    requires
        old(worker).wf(),
    ensures
        final(worker).wf(),
        ({
            &&& crate::lex::spec_literal_only(data@)
            &&& old(worker).parser@.len() < u32::MAX
            &&& crate::evaluator::spec_ctx_get(old(worker).ctx.entries@, "concat"@) is None
            &&& crate::evaluator::spec_ctx_get(
                old(worker).evaluator.prelude.entries@,
                "concat"@,
            ) matches Some(
                crate::evaluator::StoredValue::Directive(
                    crate::directives::DirectiveKind::Concat(_),
                ),
            )
        }) ==> (r matches Ok(s) && s@ == data@ && final(worker).current_level == old(worker).current_level && final(worker).theme_config == old(worker).theme_config),
{
    let node = match worker.parser.parse_source(source_path, data) {
        Ok(n) => n,
        Err(msg) => {
            return Err(msg);
        },
    };
    let ghost lit = crate::lex::spec_literal_only(data@) && old(worker).parser@.len()
        < u32::MAX && crate::evaluator::spec_ctx_get(
        worker.ctx.entries@,
        "concat"@,
    ) is None && (crate::evaluator::spec_ctx_get(
        worker.evaluator.prelude.entries@,
        "concat"@,
    ) matches Some(
        crate::evaluator::StoredValue::Directive(crate::directives::DirectiveKind::Concat(_)),
    ));
    proof {
        if lit {
            let c = node.value->Children_0;
            assert(is_text_node(c@[0], "concat"@, node.file_id, 0));
            assert(c@[0].value matches NodeValue::Owned(d) && d@ == "concat"@);
            if data@.len() == 0 {
                assert(c@.len() == 1);
                assert(c@.skip(1) =~= Seq::<Node>::empty());
                assert(crate::directives::all_literal(c@.skip(1)));
            } else {
                assert(c@.len() == 2);
                assert(is_text_node(c@[1], data@, node.file_id, 0));
                assert(c@.skip(1) =~= seq![c@[1]]);
                assert forall|j: int| 0 <= j < c@.skip(1).len() implies (#[trigger] c@.skip(
                    1,
                )[j]).value matches NodeValue::Owned(_) by {
                    assert(c@.skip(1)[j] == c@[1]);
                }
            }
            assert(spec_concat_ready(*worker, node));
        }
    }
    let out = worker.evaluate(&node, EVAL_FUEL);
    proof {
        if lit {
            let c = node.value->Children_0;
            assert(out@ == spec_concat_result(node));
            if data@.len() == 0 {
                assert(c@.skip(1) =~= Seq::<Node>::empty());
                assert(crate::directives::spec_literal_join(
                    Seq::<Node>::empty(),
                    Seq::<char>::empty(),
                ) == Seq::<char>::empty());
            } else {
                assert(c@.skip(1) =~= seq![c@[1]]);
                assert(seq![c@[1]].drop_last() =~= Seq::<Node>::empty());
                assert(seq![c@[1]].last() == c@[1]);
                assert(crate::directives::spec_literal_join(
                    Seq::<Node>::empty(),
                    Seq::<char>::empty(),
                ) == Seq::<char>::empty());
                assert(crate::directives::spec_literal_join(
                    seq![c@[1]],
                    Seq::<char>::empty(),
                ) == crate::directives::literal_text(c@[1]));
                assert(crate::directives::literal_text(c@[1]) == data@);
            }
        }
    }
    Ok(out)
}

/// Build one page: set the worker's slug, parse and evaluate the source,
/// close any sections left open, and inject paragraph markup. The
/// worker's accumulated theme configuration travels with the page.
pub fn build_page(worker: &mut Worker, source_path: &str, slug: Slug, data: &str) -> (r: Result<
    Page,
    String,
>)
    requires
        old(worker).wf(),
    ensures
        final(worker).wf(),
        r matches Ok(p) ==> p.slug@ == slug@ && p.source_path@ == source_path@,
        r matches Ok(p) ==> ({
            &&& p.theme_config@.len() == final(worker).theme_config@.len()
            &&& forall|i: int|
                0 <= i < p.theme_config@.len() ==> ((#[trigger] p.theme_config@[i]).0@
                    == final(worker).theme_config@[i].0@ && p.theme_config@[i].1@
                    == final(worker).theme_config@[i].1@)
        }),
        ({
            &&& crate::lex::spec_literal_only(data@)
            &&& old(worker).parser@.len() < u32::MAX
            &&& crate::evaluator::spec_ctx_get(
                old(worker).evaluator.prelude.entries@,
                "concat"@,
            ) matches Some(
                crate::evaluator::StoredValue::Directive(
                    crate::directives::DirectiveKind::Concat(_),
                ),
            )
        }) ==> (r matches Ok(p) && p.body@ == spec_inject(data@, 0, Seq::<char>::empty())),
{
    worker.set_slug(slug.clone());
    proof {
        if crate::lex::spec_literal_only(data@) {
            assert(crate::evaluator::spec_ctx_get(worker.ctx.entries@, "concat"@) is None);
        }
    }
    let ghost lit_ready = crate::lex::spec_literal_only(data@) && old(worker).parser@.len()
        < u32::MAX && (crate::evaluator::spec_ctx_get(
        worker.evaluator.prelude.entries@,
        "concat"@,
    ) matches Some(
        crate::evaluator::StoredValue::Directive(crate::directives::DirectiveKind::Concat(_)),
    ));
    let body = match evaluate_source(worker, source_path, data) {
        Ok(b) => b,
        Err(msg) => {
            return Err(msg);
        },
    };
    let mut body = body;
    let closing = worker.close_sections();
    proof {
        if lit_ready {
            assert(worker.current_level == 0);
            assert(closing@ == crate::evaluator::spec_repeat_close(0));
        }
    }
    body.append(closing.as_str());
    proof {
        if lit_ready {
            assert(body@ =~= data@);
        }
    }
    let body = inject_paragraphs(body.as_str());
    let theme_config = clone_pairs(&worker.theme_config);
    Ok(Page { source_path: source_path.to_owned(), slug, body, theme_config })
}

/// Copy a key/value list; the copy is view-equal entry for entry.
pub fn clone_pairs(pairs: &Vec<(String, String)>) -> (r: Vec<(String, String)>)
    ensures
        r@.len() == pairs@.len(),
        forall|i: int|
            0 <= i < pairs@.len() ==> (#[trigger] r@[i]).0@ == pairs@[i].0@ && r@[i].1@
                == pairs@[i].1@,
{
    let mut r: Vec<(String, String)> = Vec::new();
    let mut i: usize = 0;
    while i < pairs.len()
        invariant
            0 <= i <= pairs@.len(),
            r@.len() == i,
            forall|j: int|
                0 <= j < i ==> (#[trigger] r@[j]).0@ == pairs@[j].0@ && r@[j].1@ == pairs@[j].1@,
        decreases pairs@.len() - i,
    {
        r.push((pairs[i].0.clone(), pairs[i].1.clone()));
        i += 1;
    }
    r
}

/// Link one page: select its template by the configured glob patterns and
/// resolve every reference placeholder in its body. An unresolvable
/// reference fails this page alone.
pub fn link_page(
    evaluator: &Evaluator,
    templates: &Vec<(String, String)>,
    page: &Page,
) -> (r: Result<(String, String), String>)
    requires
        evaluator.wf(),
    ensures
        match r {
            Ok(p) => {
                &&& p.0@ == spec_find_template(templates@, page.source_path@)
                &&& spec_substitute(
                    page.body@,
                    evaluator.placeholder_prefix@,
                    evaluator.pending_links@,
                    evaluator.refdefs@,
                    page.slug@,
                ) == Some(p.1@)
            },
            Err(_) => spec_substitute(
                page.body@,
                evaluator.placeholder_prefix@,
                evaluator.pending_links@,
                evaluator.refdefs@,
                page.slug@,
            ) is None,
        },
{
    let template_name = find_template(templates, page.source_path.as_str());
    let new_body = match evaluator.substitute(page) {
        Ok(b) => b,
        Err(msg) => {
            return Err(msg);
        },
    };
    Ok((template_name, new_body))
}

/// The final output is independent of the process-random marker prefix:
/// two builds that register the same pending references and reference
/// definitions resolve their markers to the same text, whatever prefixes
/// their evaluators drew. Together with the exact contracts of parsing,
/// evaluation and rendering, re-running a build over identical page
/// contents reproduces identical output.
pub proof fn lemma_output_prefix_independent(
    p1: Seq<char>,
    p2: Seq<char>,
    n: nat,
    pending: Seq<(crate::evaluator::PlaceholderAction, String)>,
    refdefs: Seq<(String, crate::evaluator::RefDef)>,
    slug: Seq<char>,
)
    requires
        crate::evaluator::spec_prefix_wf(p1),
        crate::evaluator::spec_prefix_wf(p2),
        n < pending.len(),
        crate::evaluator::spec_find_refdef(refdefs, pending[n as int].1@) is Some,
    ensures
        spec_substitute(
            crate::evaluator::spec_marker(p1, n),
            p1,
            pending,
            refdefs,
            slug,
        ) == spec_substitute(crate::evaluator::spec_marker(p2, n), p2, pending, refdefs, slug),
{
    crate::evaluator::lemma_marker_resolves(p1, n, pending, refdefs, slug);
    crate::evaluator::lemma_marker_resolves(p2, n, pending, refdefs, slug);
}

} // verus!
