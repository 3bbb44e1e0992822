//! The glossary directive: a definition list whose terms double as
//! reference targets.

use vstd::prelude::*;
use crate::directives::{
    all_literal, concat_nodes, escape_string, literal_text, spec_escape, spec_literal_join,
};
use crate::evaluator::{spec_find_refdef, RefDef, Worker};
use crate::page::Slug;
use crate::parse::{Node, NodeValue};

verus! {

/// Every glossary entry is a block with a literal term and literal body
/// pieces.
pub open spec fn spec_glossary_shape(args: Seq<Node>) -> bool {
    forall|i: int|
        0 <= i < args.len() ==> {
            &&& (#[trigger] args[i]).value matches NodeValue::Children(c)
            &&& c@.len() >= 1
            &&& all_literal(c@)
        }
}

/// One rendered glossary entry: a `<dt>` anchored at `term-TERM` (the
/// term HTML-escaped in the id), then the body as a `<dd>`.
pub open spec fn spec_glossary_item(arg: Node) -> Seq<char> {
    match arg.value {
        NodeValue::Children(c) => {
            let term = literal_text(c@[0]);
            "<dt id=\""@ + "term-"@ + spec_escape(term) + "\">"@ + term + "</dt><dd>"@
                + spec_literal_join(c@.skip(1), " "@) + "</dd>"@
        },
        NodeValue::Owned(_) => Seq::<char>::empty(),
    }
}

/// The rendered entries of `args`, in order.
pub open spec fn spec_glossary_items(args: Seq<Node>) -> Seq<char>
    decreases args.len(),
{
    if args.len() == 0 {
        Seq::<char>::empty()
    } else {
        spec_glossary_items(args.drop_last()) + spec_glossary_item(args.last())
    }
}

/// Renders `(term body...)` groups as `<dl class="glossary">`, and
/// registers `term-TERM` as a reference id for each term.
pub struct Glossary;

impl Glossary {
    /// Each argument must be a block of term and body; each term is
    /// registered as a reference definition `term-TERM` pointing at the
    /// current page.
    pub fn handle(&self, worker: &mut Worker, args: &[Node], fuel: u32) -> (r: Result<
        String,
        (),
    >)
        requires
            old(worker).wf(),
        ensures
            final(worker).wf(),
            (old(worker).current_slug is Some && spec_glossary_shape(args@)) ==> (r matches Ok(
                s,
            ) && s@ == "<dl class=\"glossary\">"@ + spec_glossary_items(args@) + "</dl>"@),
            (old(worker).current_slug is Some && spec_glossary_shape(args@) && args@.len()
                == 1) ==> ({
                let term = literal_text(args@[0].value->Children_0@[0]);
                spec_find_refdef(
                    final(worker).evaluator.refdefs@,
                    "term-"@ + spec_escape(term),
                ) matches Some(d) && d.title@ == term && d.slug@ == old(
                    worker,
                ).current_slug->Some_0@
            }),
        decreases fuel, 1int,
    {
        let slug: Slug = match &worker.current_slug {
            Some(s) => s.clone(),
            None => {
                return Err(());
            },
        };
        let mut out = String::new();
        out.append("<dl class=\"glossary\">");
        let ghost head = out@;
        let mut i: usize = 0;
        while i < args.len()
            invariant
                worker.wf(),
                0 <= i <= args@.len(),
                head == "<dl class=\"glossary\">"@,
                old(worker).current_slug is Some ==> slug@ == old(
                    worker,
                ).current_slug->Some_0@,
                spec_glossary_shape(args@) ==> {
                    &&& out@ == head + spec_glossary_items(args@.subrange(0, i as int))
                    &&& (i > 0 && args@.len() == 1 ==> ({
                        let term = literal_text(args@[0].value->Children_0@[0]);
                        spec_find_refdef(
                            worker.evaluator.refdefs@,
                            "term-"@ + spec_escape(term),
                        ) matches Some(d) && d.title@ == term && d.slug@ == slug@
                    }))
                },
            decreases args@.len() - i,
        {
            let ghost pre_out = out@;
            proof {
                if spec_glossary_shape(args@) {
                    assert(args@[i as int].value matches NodeValue::Children(_));
                    assert(args@.subrange(0, i + 1int).drop_last() =~= args@.subrange(
                        0,
                        i as int,
                    ));
                    assert(args@.subrange(0, i + 1int).last() == args@[i as int]);
                }
            }
            let children: &Vec<Node> = match &args[i].value {
                NodeValue::Owned(_) => {
                    return Err(());
                },
                NodeValue::Children(c) => c,
            };
            if children.len() == 0 {
                return Err(());
            }
            proof {
                if spec_glossary_shape(args@) {
                    assert(children@[0].value matches NodeValue::Owned(_));
                }
            }
            let term: String = match &children[0].value {
                NodeValue::Owned(s) => s.clone(),
                NodeValue::Children(_) => {
                    if fuel == 0 {
                        String::new()
                    } else {
                        worker.evaluate(&children[0], fuel - 1)
                    }
                },
            };
            let mut ref_id = String::new();
            ref_id.append("term-");
            ref_id.append(escape_string(term.as_str()).as_str());
            let body = concat_nodes(worker, children.as_slice(), 1, " ", fuel);
            out.append("<dt id=\"");
            out.append(ref_id.as_str());
            out.append("\">");
            out.append(term.as_str());
            out.append("</dt><dd>");
            out.append(body.as_str());
            out.append("</dd>");
            let refdef = RefDef::new(term.as_str(), &slug);
            worker.insert_refdef(ref_id, refdef);
            proof {
                if spec_glossary_shape(args@) {
                    assert(out@ =~= pre_out + spec_glossary_item(args@[i as int]));
                    assert(out@ =~= head + spec_glossary_items(args@.subrange(0, i + 1int)));
                }
            }
            i += 1;
        }
        proof {
            assert(args@.subrange(0, args@.len() as int) =~= args@);
        }
        out.append("</dl>");
        Ok(out)
    }
}

} // verus!
