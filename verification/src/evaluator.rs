//! The evaluator: the process-wide shared state of a build (directive
//! prelude, reference definitions, table of contents, pending reference
//! placeholders) and the per-page [`Worker`] that walks a parse tree,
//! dispatching directives and tracking lexical bindings and section
//! nesting.

use vstd::prelude::*;
use crate::directives::DirectiveKind;
use crate::highlighter::SyntaxHighlighter;
use crate::outside::random_u128;
use crate::page::{Page, Slug};
use crate::parse::{clone_node, Node, NodeValue, Parser};
use crate::strutil::{push_char, spec_dec_digits, u64_to_dec};
use crate::toctree::TocTree;

verus! {

/// What a pending placeholder stands for: the relative path to the
/// referenced page, or that page's registered title.
#[derive(Clone, Copy, Debug, PartialEq)]
pub enum PlaceholderAction {
    Path,
    Title,
}

/// A registered reference definition: the title and slug a reference id
/// resolves to.
#[derive(Debug)]
pub struct RefDef {
    pub title: String,
    pub slug: Slug,
}

impl RefDef {
    pub fn new(title: &str, slug: &Slug) -> (r: RefDef)
        ensures
            r.title@ == title@,
            r.slug@ == slug@,
    {
        RefDef { title: title.to_owned(), slug: slug.clone() }
    }
}

/// A name's binding: a directive, or a captured node re-evaluated (or
/// already evaluated) on every reference.
pub enum StoredValue {
    Directive(DirectiveKind),
    Node(Node),
}

/// The value bound to `key` in a context, or `None`.
pub open spec fn spec_ctx_get(
    entries: Seq<(String, StoredValue)>,
    key: Seq<char>,
) -> Option<StoredValue>
    decreases entries.len(),
{
    if entries.len() == 0 {
        None
    } else if entries[0].0@ == key {
        Some(entries[0].1)
    } else {
        spec_ctx_get(entries.drop_first(), key)
    }
}

/// A map from names to stored values with unique keys: the per-page local
/// binding context, and the process-wide prelude.
pub struct Ctx {
    pub entries: Vec<(String, StoredValue)>,
}

/// The keys of `entries` are pairwise distinct.
pub open spec fn spec_ctx_unique(entries: Seq<(String, StoredValue)>) -> bool {
    forall|i: int, j: int|
        0 <= i < j < entries.len() ==> (#[trigger] entries[i]).0@ != (#[trigger] entries[j]).0@
}

proof fn lemma_ctx_get_skip(entries: Seq<(String, StoredValue)>, key: Seq<char>, i: int)
    requires
        0 <= i <= entries.len(),
        forall|j: int| 0 <= j < i ==> (#[trigger] entries[j]).0@ != key,
    ensures
        spec_ctx_get(entries, key) == spec_ctx_get(entries.skip(i), key),
    decreases i,
{
    if i > 0 {
        assert(entries[0].0@ != key);
        lemma_ctx_get_skip(entries.drop_first(), key, i - 1);
        assert(entries.drop_first().skip(i - 1) =~= entries.skip(i));
    } else {
        assert(entries.skip(0) =~= entries);
    }
}

proof fn lemma_ctx_get_update(entries: Seq<(String, StoredValue)>, i: int, p: (String, StoredValue))
    requires
        0 <= i < entries.len(),
        entries[i].0@ == p.0@,
        forall|j: int| 0 <= j < i ==> (#[trigger] entries[j]).0@ != p.0@,
    ensures
        spec_ctx_get(entries.update(i, p), p.0@) == Some(p.1),
        forall|k: Seq<char>|
            k != p.0@ ==> spec_ctx_get(entries.update(i, p), k) == #[trigger] spec_ctx_get(
                entries,
                k,
            ),
    decreases i,
{
    if i == 0 {
        assert(entries.update(0, p)[0] == p);
        assert forall|k: Seq<char>| k != p.0@ implies spec_ctx_get(entries.update(0, p), k)
            == #[trigger] spec_ctx_get(entries, k) by {
            assert(entries.update(0, p).drop_first() =~= entries.drop_first());
        }
    } else {
        lemma_ctx_get_update(entries.drop_first(), i - 1, p);
        assert(entries.update(i, p).drop_first() =~= entries.drop_first().update(i - 1, p));
        assert(entries.update(i, p)[0] == entries[0]);
        assert(entries[0].0@ != p.0@);
        assert(spec_ctx_get(entries.update(i, p), p.0@) == spec_ctx_get(
            entries.drop_first().update(i - 1, p),
            p.0@,
        ));
        assert forall|k: Seq<char>| k != p.0@ implies spec_ctx_get(entries.update(i, p), k)
            == #[trigger] spec_ctx_get(entries, k) by {
            if entries[0].0@ == k {
            } else {
                assert(spec_ctx_get(entries.update(i, p), k) == spec_ctx_get(
                    entries.drop_first().update(i - 1, p),
                    k,
                ));
                assert(spec_ctx_get(entries, k) == spec_ctx_get(entries.drop_first(), k));
            }
        }
    }
}

proof fn lemma_ctx_get_push(entries: Seq<(String, StoredValue)>, p: (String, StoredValue))
    requires
        forall|j: int| 0 <= j < entries.len() ==> (#[trigger] entries[j]).0@ != p.0@,
    ensures
        spec_ctx_get(entries.push(p), p.0@) == Some(p.1),
        forall|k: Seq<char>|
            k != p.0@ ==> spec_ctx_get(entries.push(p), k) == #[trigger] spec_ctx_get(entries, k),
    decreases entries.len(),
{
    if entries.len() == 0 {
        assert(entries.push(p)[0] == p);
        assert forall|k: Seq<char>| k != p.0@ implies spec_ctx_get(entries.push(p), k)
            == #[trigger] spec_ctx_get(entries, k) by {
            assert(entries.push(p)[0] == p);
            assert(entries.push(p).drop_first() =~= Seq::<(String, StoredValue)>::empty());
            assert(spec_ctx_get(entries.push(p), k) == spec_ctx_get(
                entries.push(p).drop_first(),
                k,
            ));
        }
    } else {
        lemma_ctx_get_push(entries.drop_first(), p);
        assert(entries.push(p).drop_first() =~= entries.drop_first().push(p));
        assert(entries.push(p)[0] == entries[0]);
        assert(entries[0].0@ != p.0@);
        assert(spec_ctx_get(entries.push(p), p.0@) == spec_ctx_get(
            entries.drop_first().push(p),
            p.0@,
        ));
        assert forall|k: Seq<char>| k != p.0@ implies spec_ctx_get(entries.push(p), k)
            == #[trigger] spec_ctx_get(entries, k) by {
            if entries[0].0@ == k {
            } else {
                assert(spec_ctx_get(entries.push(p), k) == spec_ctx_get(
                    entries.drop_first().push(p),
                    k,
                ));
                assert(spec_ctx_get(entries, k) == spec_ctx_get(entries.drop_first(), k));
            }
        }
    }
}

proof fn lemma_ctx_get_remove(entries: Seq<(String, StoredValue)>, i: int)
    requires
        0 <= i < entries.len(),
        spec_ctx_unique(entries),
        forall|j: int| 0 <= j < i ==> (#[trigger] entries[j]).0@ != entries[i].0@,
    ensures
        spec_ctx_get(entries.remove(i), entries[i].0@) is None,
        forall|k: Seq<char>|
            k != entries[i].0@ ==> spec_ctx_get(entries.remove(i), k) == #[trigger] spec_ctx_get(
                entries,
                k,
            ),
    decreases i,
{
    if i == 0 {
        assert(entries.remove(0) =~= entries.drop_first());
        let key = entries[0].0@;
        assert forall|j: int|
            0 <= j < entries.drop_first().len() implies (#[trigger] entries.drop_first()[j]).0@
            != key by {
            assert(entries.drop_first()[j] == entries[j + 1]);
        }
        lemma_ctx_get_skip(entries.drop_first(), key, entries.drop_first().len() as int);
        assert(entries.drop_first().skip(entries.drop_first().len() as int) =~= Seq::<
            (String, StoredValue),
        >::empty());
    } else {
        assert forall|a: int, b: int|
            0 <= a < b < entries.drop_first().len() implies (#[trigger] entries.drop_first()[
            a]).0@ != (#[trigger] entries.drop_first()[b]).0@ by {
            assert(entries.drop_first()[a] == entries[a + 1]);
            assert(entries.drop_first()[b] == entries[b + 1]);
        }
        lemma_ctx_get_remove(entries.drop_first(), i - 1);
        assert(entries.remove(i).drop_first() =~= entries.drop_first().remove(i - 1));
        assert(entries.remove(i)[0] == entries[0]);
        assert(entries[0].0@ != entries[i].0@);
        assert(entries.drop_first()[i - 1] == entries[i]);
        assert(spec_ctx_get(entries.remove(i), entries[i].0@) == spec_ctx_get(
            entries.drop_first().remove(i - 1),
            entries[i].0@,
        ));
        assert forall|k: Seq<char>| k != entries[i].0@ implies spec_ctx_get(
            entries.remove(i),
            k,
        ) == #[trigger] spec_ctx_get(entries, k) by {
            if entries[0].0@ == k {
            } else {
                assert(spec_ctx_get(entries.remove(i), k) == spec_ctx_get(
                    entries.drop_first().remove(i - 1),
                    k,
                ));
                assert(spec_ctx_get(entries, k) == spec_ctx_get(entries.drop_first(), k));
            }
        }
    }
}

impl Ctx {
    pub fn new() -> (c: Ctx)
        ensures
            c.entries@.len() == 0,
            spec_ctx_unique(c.entries@),
    {
        Ctx { entries: Vec::new() }
    }

    fn find_index(&self, key: &str) -> (r: Option<usize>)
        ensures
            match r {
                Some(i) => {
                    &&& i < self.entries@.len()
                    &&& self.entries@[i as int].0@ == key@
                    &&& forall|j: int|
                        0 <= j < i ==> (#[trigger] self.entries@[j]).0@ != key@
                },
                None => forall|j: int|
                    0 <= j < self.entries@.len() ==> (#[trigger] self.entries@[j]).0@ != key@,
            },
    {
        let key_owned: String = key.to_owned();
        let n = self.entries.len();
        let mut i: usize = 0;
        while i < n
            invariant
                0 <= i <= n,
                n == self.entries@.len(),
                key_owned@ == key@,
                forall|j: int| 0 <= j < i ==> (#[trigger] self.entries@[j]).0@ != key@,
            decreases n - i,
        {
            if self.entries[i].0 == key_owned {
                return Some(i);
            }
            i += 1;
        }
        None
    }

    /// The value bound to `key`.
    pub fn get<'s>(&'s self, key: &str) -> (r: Option<&'s StoredValue>)
        ensures
            match r {
                Some(v) => spec_ctx_get(self.entries@, key@) == Some(*v),
                None => spec_ctx_get(self.entries@, key@) is None,
            },
    {
        match self.find_index(key) {
            Some(i) => {
                proof {
                    lemma_ctx_get_skip(self.entries@, key@, i as int);
                    assert(self.entries@.skip(i as int)[0] == self.entries@[i as int]);
                }
                Some(&self.entries[i].1)
            },
            None => {
                proof {
                    lemma_ctx_get_skip(self.entries@, key@, self.entries@.len() as int);
                    assert(self.entries@.skip(self.entries@.len() as int) =~= Seq::<
                        (String, StoredValue),
                    >::empty());
                }
                None
            },
        }
    }

    /// Bind `key` to `value`, replacing any existing binding; the prior
    /// binding, if any, is returned.
    pub fn insert(&mut self, key: String, value: StoredValue) -> (prior: Option<StoredValue>)
        requires
            spec_ctx_unique(old(self).entries@),
        ensures
            spec_ctx_unique(final(self).entries@),
            spec_ctx_get(final(self).entries@, key@) == Some(value),
            forall|k: Seq<char>|
                k != key@ ==> spec_ctx_get(final(self).entries@, k) == #[trigger] spec_ctx_get(
                    old(self).entries@,
                    k,
                ),
            match prior {
                Some(v) => spec_ctx_get(old(self).entries@, key@) == Some(v),
                None => spec_ctx_get(old(self).entries@, key@) is None,
            },
    {
        let ghost es0 = self.entries@;
        match self.find_index(key.as_str()) {
            Some(i) => {
                let old_entry = self.entries.remove(i);
                let entry = (key, value);
                self.entries.insert(i, entry);
                proof {
                    let v = self.entries@[i as int];
                    assert(self.entries@ =~= es0.update(i as int, v));
                    lemma_ctx_get_update(es0, i as int, v);
                    lemma_ctx_get_skip(es0, v.0@, i as int);
                    assert(es0.skip(i as int)[0] == es0[i as int]);
                    assert forall|a: int, b: int|
                        0 <= a < b < self.entries@.len() implies (#[trigger] self.entries@[
                        a]).0@ != (#[trigger] self.entries@[b]).0@ by {
                        assert(es0[a].0@ != es0[b].0@);
                    }
                }
                Some(old_entry.1)
            },
            None => {
                let entry = (key, value);
                proof {
                    lemma_ctx_get_push(es0, entry);
                    lemma_ctx_get_skip(es0, entry.0@, es0.len() as int);
                    assert(es0.skip(es0.len() as int) =~= Seq::<(String, StoredValue)>::empty());
                    assert forall|a: int, b: int|
                        0 <= a < b < es0.push(entry).len() implies (#[trigger] es0.push(entry)[
                        a]).0@ != (#[trigger] es0.push(entry)[b]).0@ by {
                        if b < es0.len() {
                            assert(es0[a].0@ != es0[b].0@);
                        } else {
                            assert(es0.push(entry)[b] == entry);
                            assert(es0[a].0@ != entry.0@);
                        }
                    }
                }
                self.entries.push(entry);
                None
            },
        }
    }

    /// Drop any binding of `key`.
    pub fn remove(&mut self, key: &str)
        requires
            spec_ctx_unique(old(self).entries@),
        ensures
            spec_ctx_unique(final(self).entries@),
            spec_ctx_get(final(self).entries@, key@) is None,
            forall|k: Seq<char>|
                k != key@ ==> spec_ctx_get(final(self).entries@, k) == #[trigger] spec_ctx_get(
                    old(self).entries@,
                    k,
                ),
    {
        let ghost es0 = self.entries@;
        match self.find_index(key) {
            Some(i) => {
                proof {
                    lemma_ctx_get_remove(es0, i as int);
                    assert forall|a: int, b: int|
                        0 <= a < b < es0.remove(i as int).len() implies (#[trigger] es0.remove(
                        i as int,
                    )[a]).0@ != (#[trigger] es0.remove(i as int)[b]).0@ by {
                        let a0: int = if a < i {
                            a
                        } else {
                            a + 1
                        };
                        let b0: int = if b < i {
                            b
                        } else {
                            b + 1
                        };
                        assert(es0.remove(i as int)[a] == es0[a0]);
                        assert(es0.remove(i as int)[b] == es0[b0]);
                        assert(es0[a0].0@ != es0[b0].0@);
                    }
                }
                self.entries.remove(i);
            },
            None => {
                proof {
                    lemma_ctx_get_skip(es0, key@, es0.len() as int);
                    assert(es0.skip(es0.len() as int) =~= Seq::<(String, StoredValue)>::empty());
                }
            },
        }
    }

    /// Drop every binding.
    pub fn clear(&mut self)
        ensures
            final(self).entries@.len() == 0,
            spec_ctx_unique(final(self).entries@),
    {
        self.entries.clear();
    }
}

/// Structural equivalence of stored values.
pub open spec fn stored_equiv(a: StoredValue, b: StoredValue) -> bool {
    match (a, b) {
        (StoredValue::Directive(x), StoredValue::Directive(y)) => crate::directives::kind_equiv(
            x,
            y,
        ),
        (StoredValue::Node(x), StoredValue::Node(y)) => crate::parse::node_equiv(x, y),
        _ => false,
    }
}

/// Copy a stored value; the copy is structurally equivalent.
pub fn clone_stored(v: &StoredValue) -> (r: StoredValue)
    ensures
        stored_equiv(r, *v),
{
    match v {
        StoredValue::Directive(k) => StoredValue::Directive(crate::directives::clone_kind(k)),
        StoredValue::Node(n) => StoredValue::Node(clone_node(n)),
    }
}

/// The reference definition registered under `key`, or `None`.
pub open spec fn spec_find_refdef(rs: Seq<(String, RefDef)>, key: Seq<char>) -> Option<RefDef>
    decreases rs.len(),
{
    if rs.len() == 0 {
        None
    } else if rs[0].0@ == key {
        Some(rs[0].1)
    } else {
        spec_find_refdef(rs.drop_first(), key)
    }
}

proof fn lemma_find_refdef_skip(rs: Seq<(String, RefDef)>, key: Seq<char>, i: int)
    requires
        0 <= i <= rs.len(),
        forall|j: int| 0 <= j < i ==> (#[trigger] rs[j]).0@ != key,
    ensures
        spec_find_refdef(rs, key) == spec_find_refdef(rs.skip(i), key),
    decreases i,
{
    if i > 0 {
        assert(rs[0].0@ != key);
        lemma_find_refdef_skip(rs.drop_first(), key, i - 1);
        assert(rs.drop_first().skip(i - 1) =~= rs.skip(i));
    } else {
        assert(rs.skip(0) =~= rs);
    }
}

proof fn lemma_find_refdef_update(rs: Seq<(String, RefDef)>, i: int, p: (String, RefDef))
    requires
        0 <= i < rs.len(),
        rs[i].0@ == p.0@,
        forall|j: int| 0 <= j < i ==> (#[trigger] rs[j]).0@ != p.0@,
    ensures
        spec_find_refdef(rs.update(i, p), p.0@) == Some(p.1),
        forall|k: Seq<char>|
            k != p.0@ ==> spec_find_refdef(rs.update(i, p), k) == #[trigger] spec_find_refdef(
                rs,
                k,
            ),
    decreases i,
{
    if i == 0 {
        assert(rs.update(0, p)[0] == p);
        assert forall|k: Seq<char>| k != p.0@ implies spec_find_refdef(rs.update(0, p), k)
            == #[trigger] spec_find_refdef(rs, k) by {
            assert(rs.update(0, p).drop_first() =~= rs.drop_first());
        }
    } else {
        lemma_find_refdef_update(rs.drop_first(), i - 1, p);
        assert(rs.update(i, p).drop_first() =~= rs.drop_first().update(i - 1, p));
        assert(rs.update(i, p)[0] == rs[0]);
        assert(rs[0].0@ != p.0@);
        assert(spec_find_refdef(rs.update(i, p), p.0@) == spec_find_refdef(
            rs.drop_first().update(i - 1, p),
            p.0@,
        ));
        assert forall|k: Seq<char>| k != p.0@ implies spec_find_refdef(rs.update(i, p), k)
            == #[trigger] spec_find_refdef(rs, k) by {
            if rs[0].0@ == k {
            } else {
                assert(spec_find_refdef(rs.update(i, p), k) == spec_find_refdef(
                    rs.drop_first().update(i - 1, p),
                    k,
                ));
                assert(spec_find_refdef(rs, k) == spec_find_refdef(rs.drop_first(), k));
            }
        }
    }
}

proof fn lemma_find_refdef_push(rs: Seq<(String, RefDef)>, p: (String, RefDef))
    requires
        forall|j: int| 0 <= j < rs.len() ==> (#[trigger] rs[j]).0@ != p.0@,
    ensures
        spec_find_refdef(rs.push(p), p.0@) == Some(p.1),
        forall|k: Seq<char>|
            k != p.0@ ==> spec_find_refdef(rs.push(p), k) == #[trigger] spec_find_refdef(rs, k),
    decreases rs.len(),
{
    if rs.len() == 0 {
        assert(rs.push(p)[0] == p);
        assert forall|k: Seq<char>| k != p.0@ implies spec_find_refdef(rs.push(p), k)
            == #[trigger] spec_find_refdef(rs, k) by {
            assert(rs.push(p)[0] == p);
            assert(rs.push(p).drop_first() =~= Seq::<(String, RefDef)>::empty());
            assert(spec_find_refdef(rs.push(p), k) == spec_find_refdef(
                rs.push(p).drop_first(),
                k,
            ));
        }
    } else {
        lemma_find_refdef_push(rs.drop_first(), p);
        assert(rs.push(p).drop_first() =~= rs.drop_first().push(p));
        assert(rs.push(p)[0] == rs[0]);
        assert(rs[0].0@ != p.0@);
        assert(spec_find_refdef(rs.push(p), p.0@) == spec_find_refdef(
            rs.drop_first().push(p),
            p.0@,
        ));
        assert forall|k: Seq<char>| k != p.0@ implies spec_find_refdef(rs.push(p), k)
            == #[trigger] spec_find_refdef(rs, k) by {
            if rs[0].0@ == k {
            } else {
                assert(spec_find_refdef(rs.push(p), k) == spec_find_refdef(
                    rs.drop_first().push(p),
                    k,
                ));
                assert(spec_find_refdef(rs, k) == spec_find_refdef(rs.drop_first(), k));
            }
        }
    }
}

/// A well-formed placeholder prefix: 32 lowercase hex digits, so it can
/// hold neither a `%` nor a `-`, and a placeholder marker can always be
/// scanned back unambiguously.
pub open spec fn spec_prefix_wf(s: Seq<char>) -> bool {
    s.len() == 32 && forall|i: int| 0 <= i < s.len() ==> crate::strutil::spec_is_hex(#[trigger] s[i])
}

/// The opaque marker emitted for pending reference `n`:
/// `%`, the prefix, `-`, the index in decimal, `%`.
pub open spec fn spec_marker(prefix: Seq<char>, n: nat) -> Seq<char> {
    seq!['%'] + prefix + seq!['-'] + spec_dec_digits(n) + seq!['%']
}

/// The process-wide shared state of a build: the directive prelude
/// (read-only once registration is done), the reference-definition
/// registry, the table of contents, and the append-only list of pending
/// placeholder requests together with the random marker prefix.
pub struct Evaluator {
    pub prelude: Ctx,
    pub refdefs: Vec<(String, RefDef)>,
    pub toctree: TocTree,
    pub placeholder_prefix: String,
    pub pending_links: Vec<(PlaceholderAction, String)>,
}

impl Evaluator {
    /// The evaluator's structural invariant.
    pub open spec fn wf(&self) -> bool {
        &&& spec_ctx_unique(self.prelude.entries@)
        &&& spec_prefix_wf(self.placeholder_prefix@)
        &&& forall|i: int, j: int|
            0 <= i < j < self.refdefs@.len() ==> (#[trigger] self.refdefs@[i]).0@ != (
            #[trigger] self.refdefs@[j]).0@
    }

    /// A fresh evaluator: empty registries, a table of contents rooted at
    /// `index` in pretty-URL mode, and a random placeholder prefix that
    /// ordinary page content cannot collide with.
    pub fn new() -> (r: Evaluator)
        ensures
            r.wf(),
            r.prelude.entries@.len() == 0,
            r.refdefs@.len() == 0,
            r.pending_links@.len() == 0,
            r.toctree.root@ == "index"@,
            r.toctree.pretty_url == true,
            r.toctree.children@.len() == 0,
            r.toctree.inverse_children@.len() == 0,
            r.toctree.titles@.len() == 0,
    {
        let prefix = crate::strutil::u128_to_hex32(random_u128());
        Evaluator {
            prelude: Ctx::new(),
            refdefs: Vec::new(),
            toctree: TocTree::new(Slug::new(String::from_str("index")), true),
            placeholder_prefix: prefix,
            pending_links: Vec::new(),
        }
    }

    /// Register a directive under `name` in the prelude; done once,
    /// before any page is evaluated.
    pub fn register_prelude(&mut self, name: &str, handler: DirectiveKind)
        requires
            old(self).wf(),
        ensures
            final(self).wf(),
            spec_ctx_get(final(self).prelude.entries@, name@) == Some(
                StoredValue::Directive(handler),
            ),
            forall|k: Seq<char>|
                k != name@ ==> spec_ctx_get(final(self).prelude.entries@, k)
                    == #[trigger] spec_ctx_get(old(self).prelude.entries@, k),
            final(self).refdefs == old(self).refdefs,
            final(self).toctree == old(self).toctree,
            final(self).placeholder_prefix == old(self).placeholder_prefix,
            final(self).pending_links == old(self).pending_links,
    {
        self.prelude.insert(name.to_owned(), StoredValue::Directive(handler));
    }

    /// The reference definition registered under `refid`.
    pub fn find_refdef<'s>(&'s self, refid: &str) -> (r: Option<&'s RefDef>)
        ensures
            match r {
                Some(d) => spec_find_refdef(self.refdefs@, refid@) == Some(*d),
                None => spec_find_refdef(self.refdefs@, refid@) is None,
            },
    {
        let key: String = refid.to_owned();
        let n = self.refdefs.len();
        let mut i: usize = 0;
        while i < n
            invariant
                0 <= i <= n,
                n == self.refdefs@.len(),
                key@ == refid@,
                forall|j: int| 0 <= j < i ==> (#[trigger] self.refdefs@[j]).0@ != refid@,
            decreases n - i,
        {
            if self.refdefs[i].0 == key {
                proof {
                    lemma_find_refdef_skip(self.refdefs@, refid@, i as int);
                    assert(self.refdefs@.skip(i as int)[0] == self.refdefs@[i as int]);
                }
                return Some(&self.refdefs[i].1);
            }
            i += 1;
        }
        proof {
            lemma_find_refdef_skip(self.refdefs@, refid@, n as int);
            assert(self.refdefs@.skip(n as int) =~= Seq::<(String, RefDef)>::empty());
        }
        None
    }

    /// Register `refdef` under `refid`, replacing any earlier definition
    /// of the same id.
    pub fn insert_refdef(&mut self, refid: String, refdef: RefDef)
        requires
            old(self).wf(),
        ensures
            final(self).wf(),
            spec_find_refdef(final(self).refdefs@, refid@) matches Some(d) && d.title@
                == refdef.title@ && d.slug@ == refdef.slug@,
            forall|k: Seq<char>|
                k != refid@ ==> spec_find_refdef(final(self).refdefs@, k)
                    == #[trigger] spec_find_refdef(old(self).refdefs@, k),
            final(self).prelude == old(self).prelude,
            final(self).toctree == old(self).toctree,
            final(self).placeholder_prefix == old(self).placeholder_prefix,
            final(self).pending_links == old(self).pending_links,
    {
        let ghost rs0 = self.refdefs@;
        let key: String = refid.clone();
        let n = self.refdefs.len();
        let mut i: usize = 0;
        while i < n
            invariant
                0 <= i <= n,
                n == self.refdefs@.len(),
                self.refdefs@ == rs0,
                rs0 == old(self).refdefs@,
                key@ == refid@,
                self.prelude == old(self).prelude,
                self.toctree == old(self).toctree,
                self.placeholder_prefix == old(self).placeholder_prefix,
                self.pending_links == old(self).pending_links,
                self.wf(),
                forall|a: int, b: int|
                    0 <= a < b < rs0.len() ==> (#[trigger] rs0[a]).0@ != (#[trigger] rs0[b]).0@,
                forall|j: int| 0 <= j < i ==> (#[trigger] self.refdefs@[j]).0@ != refid@,
            decreases n - i,
        {
            if self.refdefs[i].0 == key {
                let entry = (refid, refdef);
                self.refdefs.remove(i);
                self.refdefs.insert(i, entry);
                proof {
                    let v = self.refdefs@[i as int];
                    assert(v.0@ == refid@);
                    assert(self.refdefs@ =~= rs0.update(i as int, v));
                    lemma_find_refdef_update(rs0, i as int, v);
                    assert forall|k: Seq<char>| k != refid@ implies spec_find_refdef(
                        self.refdefs@,
                        k,
                    ) == #[trigger] spec_find_refdef(rs0, k) by {
                        assert(spec_find_refdef(rs0.update(i as int, v), k)
                            == spec_find_refdef(rs0, k));
                    }
                    assert forall|a: int, b: int|
                        0 <= a < b < self.refdefs@.len() implies (#[trigger] self.refdefs@[
                        a]).0@ != (#[trigger] self.refdefs@[b]).0@ by {
                        assert(rs0[a].0@ != rs0[b].0@);
                    }
                }
                return ;
            }
            i += 1;
        }
        let entry = (refid, refdef);
        proof {
            lemma_find_refdef_push(rs0, entry);
            assert forall|a: int, b: int|
                0 <= a < b < rs0.push(entry).len() implies (#[trigger] rs0.push(entry)[a]).0@ != (
            #[trigger] rs0.push(entry)[b]).0@ by {
                if b < rs0.len() {
                    assert(rs0[a].0@ != rs0[b].0@);
                } else {
                    assert(rs0.push(entry)[b] == entry);
                    assert(rs0[a].0@ != entry.0@);
                }
            }
        }
        self.refdefs.push(entry);
    }
}

/// The per-page evaluation state: one worker builds one page at a time,
/// owning the shared [`Evaluator`] while it does. `set_slug` resets the
/// page-local state between pages.
pub struct Worker {
    pub evaluator: Evaluator,
    pub highlighter: SyntaxHighlighter,
    pub current_slug: Option<Slug>,
    pub current_level: i8,
    pub parser: Parser,
    pub ctx: Ctx,
    pub theme_config: Vec<(String, String)>,
    pub sources: Vec<(String, String)>,
    pub diagnostics: Vec<String>,
}

impl Worker {
    /// The worker's structural invariant.
    pub open spec fn wf(&self) -> bool {
        &&& self.evaluator.wf()
        &&& spec_ctx_unique(self.ctx.entries@)
        &&& self.current_level >= 0
    }

    /// A worker around `evaluator`, with the default syntax theme.
    pub fn new(evaluator: Evaluator) -> (r: Worker)
        requires
            evaluator.wf(),
        ensures
            r.wf(),
            r.evaluator == evaluator,
            r.ctx.entries@.len() == 0,
            r.theme_config@.len() == 0,
            r.current_slug is None,
            r.current_level == 0,
    {
        Worker::new_with_options(evaluator, crate::highlighter::default_syntax_theme())
    }

    /// A worker around `evaluator`, highlighting with `syntax_theme`.
    pub fn new_with_options(evaluator: Evaluator, syntax_theme: &str) -> (r: Worker)
        requires
            evaluator.wf(),
        ensures
            r.wf(),
            r.evaluator == evaluator,
            r.ctx.entries@.len() == 0,
            r.theme_config@.len() == 0,
            r.current_slug is None,
            r.current_level == 0,
            r.highlighter.theme@ == syntax_theme@,
    {
        Worker {
            evaluator,
            highlighter: SyntaxHighlighter::new(syntax_theme),
            current_slug: None,
            current_level: 0,
            parser: Parser::new(),
            ctx: Ctx::new(),
            theme_config: Vec::new(),
            sources: Vec::new(),
            diagnostics: Vec::new(),
        }
    }

    /// Begin a new page: set its slug and reset the page-local state.
    pub fn set_slug(&mut self, slug: Slug)
        requires
            old(self).wf(),
        ensures
            final(self).wf(),
            final(self).current_slug matches Some(s) && s@ == slug@,
            final(self).current_level == 0,
            final(self).ctx.entries@.len() == 0,
            final(self).theme_config@.len() == 0,
            final(self).evaluator == old(self).evaluator,
            final(self).parser == old(self).parser,
            final(self).sources == old(self).sources,
            final(self).diagnostics == old(self).diagnostics,
            final(self).highlighter == old(self).highlighter,
    {
        self.current_slug = Some(slug);
        self.current_level = 0;
        self.ctx.clear();
        self.theme_config = Vec::new();
    }

    /// The current page's slug.
    pub fn get_slug<'s>(&'s self) -> (r: &'s Slug)
        requires
            self.current_slug is Some,
        ensures
            r@ == self.current_slug->Some_0@,
    {
        match &self.current_slug {
            Some(s) => s,
            None => unreached(),
        }
    }

    /// The relative path from the current page to the static asset
    /// `path`.
    pub fn add_asset(&self, path: &str) -> (r: Result<String, ()>)
        requires
            self.current_slug is Some,
        ensures
            r matches Ok(s) && s@ == crate::toctree::spec_path_to(
                self.current_slug->Some_0@,
                "_static/"@ + path@,
                true,
            ),
    {
        let mut dest = String::new();
        dest.append("_static/");
        dest.append(path);
        let slug = self.get_slug();
        Ok(slug.path_to(dest.as_str(), true))
    }

    /// Bind a directive in the page-local context.
    pub fn register(&mut self, name: &str, handler: DirectiveKind)
        requires
            old(self).wf(),
        ensures
            final(self).wf(),
            spec_ctx_get(final(self).ctx.entries@, name@) == Some(
                StoredValue::Directive(handler),
            ),
            forall|k: Seq<char>|
                k != name@ ==> spec_ctx_get(final(self).ctx.entries@, k)
                    == #[trigger] spec_ctx_get(old(self).ctx.entries@, k),
            final(self).evaluator == old(self).evaluator,
            final(self).theme_config == old(self).theme_config,
            final(self).current_slug == old(self).current_slug,
            final(self).current_level == old(self).current_level,
    {
        self.ctx.insert(name.to_owned(), StoredValue::Directive(handler));
    }

    /// Append a pending reference and hand back its opaque marker, which
    /// the link phase later resolves against the completed registry.
    pub fn get_placeholder(&mut self, refid: String, action: PlaceholderAction) -> (r: String)
        requires
            old(self).wf(),
        ensures
            final(self).wf(),
            final(self).evaluator.pending_links@ == old(self).evaluator.pending_links@.push(
                (action, refid),
            ),
            r@ == spec_marker(
                old(self).evaluator.placeholder_prefix@,
                old(self).evaluator.pending_links@.len(),
            ),
            final(self).evaluator.prelude == old(self).evaluator.prelude,
            final(self).evaluator.refdefs == old(self).evaluator.refdefs,
            final(self).evaluator.toctree == old(self).evaluator.toctree,
            final(self).evaluator.placeholder_prefix == old(self).evaluator.placeholder_prefix,
            final(self).ctx == old(self).ctx,
            final(self).theme_config == old(self).theme_config,
            final(self).current_slug == old(self).current_slug,
            final(self).current_level == old(self).current_level,
    {
        let n = self.evaluator.pending_links.len();
        self.evaluator.pending_links.push((action, refid));
        let mut r = String::new();
        push_char(&mut r, '%');
        r.append(self.evaluator.placeholder_prefix.as_str());
        push_char(&mut r, '-');
        r.append(u64_to_dec(n as u64).as_str());
        push_char(&mut r, '%');
        proof {
            assert(r@ =~= spec_marker(
                old(self).evaluator.placeholder_prefix@,
                old(self).evaluator.pending_links@.len(),
            ));
        }
        r
    }

    /// Register a reference definition under `refid`.
    pub fn insert_refdef(&mut self, refid: String, refdef: RefDef)
        requires
            old(self).wf(),
        ensures
            final(self).wf(),
            spec_find_refdef(final(self).evaluator.refdefs@, refid@) matches Some(d) && d.title@
                == refdef.title@ && d.slug@ == refdef.slug@,
            forall|k: Seq<char>|
                k != refid@ ==> spec_find_refdef(final(self).evaluator.refdefs@, k)
                    == #[trigger] spec_find_refdef(old(self).evaluator.refdefs@, k),
            final(self).evaluator.prelude == old(self).evaluator.prelude,
            final(self).evaluator.toctree == old(self).evaluator.toctree,
            final(self).evaluator.placeholder_prefix == old(self).evaluator.placeholder_prefix,
            final(self).evaluator.pending_links == old(self).evaluator.pending_links,
            final(self).ctx == old(self).ctx,
            final(self).theme_config == old(self).theme_config,
            final(self).current_slug == old(self).current_slug,
            final(self).current_level == old(self).current_level,
    {
        self.evaluator.insert_refdef(refid, refdef);
    }

    /// Register one toctree edge from the current page to `slug`.
    pub fn add_to_toctree(&mut self, slug: Slug, title: Option<String>)
        requires
            old(self).wf(),
            old(self).current_slug is Some,
        ensures
            final(self).wf(),
            final(self).ctx == old(self).ctx,
            final(self).current_slug == old(self).current_slug,
            final(self).current_level == old(self).current_level,
            final(self).theme_config == old(self).theme_config,
            final(self).evaluator.prelude == old(self).evaluator.prelude,
            final(self).evaluator.refdefs == old(self).evaluator.refdefs,
            final(self).evaluator.pending_links == old(self).evaluator.pending_links,
            final(self).evaluator.placeholder_prefix == old(self).evaluator.placeholder_prefix,
    {
        let current = self.get_slug().clone();
        self.evaluator.toctree.add(&current, slug, title);
    }

    /// Open, keep, or close `<section>` wrappers for a heading at
    /// `level`: one deeper opens a section, the same level changes
    /// nothing, a shallower level closes the difference, and skipping
    /// levels downward is an error.
    pub fn handle_heading(&mut self, level: i8) -> (r: Result<String, ()>)
        requires
            old(self).wf(),
            level >= 1,
        ensures
            final(self).wf(),
            final(self).ctx == old(self).ctx,
            final(self).evaluator == old(self).evaluator,
            final(self).theme_config == old(self).theme_config,
            final(self).current_slug == old(self).current_slug,
            match r {
                Ok(s) => {
                    &&& final(self).current_level == level
                    &&& if level == old(self).current_level + 1 {
                        s@ == "<section>"@
                    } else if level == old(self).current_level {
                        s@ == Seq::<char>::empty()
                    } else {
                        level < old(self).current_level && s@ == spec_repeat_close(
                            (old(self).current_level - level) as nat,
                        )
                    }
                },
                Err(_) => {
                    &&& level > old(self).current_level + 1
                    &&& final(self).current_level == old(self).current_level
                },
            },
    {
        let prefix: String;
        if self.current_level < i8::MAX && level == self.current_level + 1 {
            prefix = String::from_str("<section>");
        } else if level == self.current_level {
            prefix = String::new();
        } else if level < self.current_level {
            let mut s = String::new();
            let mut k: i8 = level;
            while k < self.current_level
                invariant
                    level <= k <= self.current_level,
                    s@ == spec_repeat_close((k - level) as nat),
                decreases self.current_level - k,
            {
                s.append("</section>");
                k += 1;
            }
            prefix = s;
        } else {
            return Err(());
        }
        self.current_level = level;
        Ok(prefix)
    }

    /// Closing tags for every section still open.
    pub fn close_sections(&self) -> (r: String)
        requires
            self.current_level >= 0,
        ensures
            r@ == spec_repeat_close(self.current_level as nat),
    {
        let mut s = String::new();
        let mut k: i8 = 0;
        while k < self.current_level
            invariant
                0 <= k <= self.current_level,
                s@ == spec_repeat_close(k as nat),
            decreases self.current_level - k,
    {
            s.append("</section>");
            k += 1;
        }
        s
    }

    /// Record a diagnostic for `node`, naming its source file and line.
    pub fn log(&mut self, node: &Node, message: &str)
        ensures
            final(self).diagnostics@.len() == old(self).diagnostics@.len() + 1,
            final(self).ctx == old(self).ctx,
            final(self).evaluator == old(self).evaluator,
            final(self).theme_config == old(self).theme_config,
            final(self).current_slug == old(self).current_slug,
            final(self).current_level == old(self).current_level,
            final(self).parser == old(self).parser,
            final(self).sources == old(self).sources,
            final(self).highlighter == old(self).highlighter,
    {
        let mut entry = String::new();
        entry.append(message);
        entry.append("\n  --> ");
        match self.parser.get_node_source_path(node) {
            Some(p) => {
                let p = p.clone();
                entry.append(p.as_str());
            },
            None => {},
        }
        entry.append(":");
        if node.lineno >= 0 {
            entry.append(u64_to_dec(node.lineno as u64).as_str());
        } else {
            entry.append("?");
        }
        self.diagnostics.push(entry);
    }

    /// Record a warning for `node`.
    pub fn warn(&mut self, node: &Node, message: &str)
        ensures
            final(self).diagnostics@.len() == old(self).diagnostics@.len() + 1,
            final(self).ctx == old(self).ctx,
            final(self).evaluator == old(self).evaluator,
            final(self).theme_config == old(self).theme_config,
            final(self).current_slug == old(self).current_slug,
            final(self).current_level == old(self).current_level,
            final(self).parser == old(self).parser,
            final(self).sources == old(self).sources,
            final(self).highlighter == old(self).highlighter,
    {
        self.log(node, message);
    }

    /// Record an error for `node`.
    pub fn error(&mut self, node: &Node, message: &str)
        ensures
            final(self).diagnostics@.len() == old(self).diagnostics@.len() + 1,
            final(self).ctx == old(self).ctx,
            final(self).evaluator == old(self).evaluator,
            final(self).theme_config == old(self).theme_config,
            final(self).current_slug == old(self).current_slug,
            final(self).current_level == old(self).current_level,
            final(self).parser == old(self).parser,
            final(self).sources == old(self).sources,
            final(self).highlighter == old(self).highlighter,
    {
        self.log(node, message);
    }
}

/// `n` copies of the section closing tag.
pub open spec fn spec_repeat_close(n: nat) -> Seq<char>
    decreases n,
{
    if n == 0 {
        Seq::<char>::empty()
    } else {
        spec_repeat_close((n - 1) as nat) + "</section>"@
    }
}

/// The worker can evaluate `node` as a plain concatenation: a block whose
/// name is the literal `concat`, resolving to the prelude's concat
/// handler, with literal arguments.
pub open spec fn spec_concat_ready(w: Worker, node: Node) -> bool {
    &&& node.value matches NodeValue::Children(c) && c@.len() >= 1 && (c@[0].value matches
        NodeValue::Owned(d) && d@ == "concat"@) && crate::directives::all_literal(
        c@.skip(1),
    )
    &&& spec_ctx_get(w.ctx.entries@, "concat"@) is None
    &&& spec_ctx_get(w.evaluator.prelude.entries@, "concat"@) matches Some(
        StoredValue::Directive(crate::directives::DirectiveKind::Concat(_)),
    )
}

/// What such a concatenation evaluates to: the literal argument texts,
/// joined with nothing between.
pub open spec fn spec_concat_result(node: Node) -> Seq<char> {
    match node.value {
        NodeValue::Children(c) => crate::directives::spec_literal_join(
            c@.skip(1),
            Seq::<char>::empty(),
        ),
        NodeValue::Owned(_) => Seq::<char>::empty(),
    }
}

/// `node` invokes, by a literal name, something bound neither in the
/// worker's local context nor in the prelude: the failure is local, the
/// block evaluates empty, and a diagnostic records it.
pub open spec fn spec_unknown_name_block(w: Worker, node: Node) -> bool {
    &&& node.value matches NodeValue::Children(c) && c@.len() >= 1 && (c@[0].value matches
        NodeValue::Owned(d) && {
        &&& spec_ctx_get(w.ctx.entries@, d@) is None
        &&& spec_ctx_get(w.evaluator.prelude.entries@, d@) is None
    })
}

/// `node` references, by a literal name, a captured literal-text binding
/// in the worker's local context — the innermost `let` or the page's
/// `define`, shadowing any prelude entry of the same name.
pub open spec fn spec_stored_literal_block(w: Worker, node: Node) -> bool {
    &&& node.value matches NodeValue::Children(c) && c@.len() >= 1 && (c@[0].value matches
        NodeValue::Owned(d) && (spec_ctx_get(w.ctx.entries@, d@) matches Some(
        StoredValue::Node(n),
    ) && n.value matches NodeValue::Owned(_)))
}

/// What such a reference evaluates to: the bound text itself.
pub open spec fn spec_stored_literal_text(w: Worker, node: Node) -> Seq<char> {
    match node.value {
        NodeValue::Children(c) => {
            match c@[0].value {
                NodeValue::Owned(d) => {
                    match spec_ctx_get(w.ctx.entries@, d@) {
                        Some(StoredValue::Node(n)) => {
                            match n.value {
                                NodeValue::Owned(text) => text@,
                                NodeValue::Children(_) => Seq::<char>::empty(),
                            }
                        },
                        _ => Seq::<char>::empty(),
                    }
                },
                NodeValue::Children(_) => Seq::<char>::empty(),
            }
        },
        NodeValue::Owned(_) => Seq::<char>::empty(),
    }
}

/// What pending reference `idx` resolves to: the relative path from
/// `slug` to the referenced page, or the referenced page's title. `None`
/// when the index is out of range or the reference id was never
/// registered.
pub open spec fn spec_resolve(
    pending: Seq<(PlaceholderAction, String)>,
    refdefs: Seq<(String, RefDef)>,
    slug: Seq<char>,
    idx: nat,
) -> Option<Seq<char>> {
    if idx < pending.len() {
        match spec_find_refdef(refdefs, pending[idx as int].1@) {
            Some(d) => Some(
                match pending[idx as int].0 {
                    PlaceholderAction::Path => crate::toctree::spec_path_to(slug, d.slug@, true),
                    PlaceholderAction::Title => d.title@,
                },
            ),
            None => None,
        }
    } else {
        None
    }
}

/// The number of consecutive decimal digits of `s` starting at `i`.
pub open spec fn spec_digit_run(s: Seq<char>, i: int) -> int
    decreases s.len() - i,
{
    if 0 <= i < s.len() && crate::strutil::spec_is_digit(s[i]) {
        1 + spec_digit_run(s, i + 1)
    } else {
        0
    }
}

/// When `body` begins with a placeholder marker for `prefix`, the
/// position just past it and the pending index it names.
pub open spec fn spec_marker_at(body: Seq<char>, prefix: Seq<char>) -> Option<(int, nat)> {
    let plen = prefix.len() as int;
    if body.len() >= plen + 4 && body[0] == '%' && body.subrange(1, plen + 1) == prefix && body[
        plen + 1] == '-' {
        let dl = spec_digit_run(body, plen + 2);
        if dl >= 1 && plen + 2 + dl < body.len() && body[plen + 2 + dl] == '%' {
            Some((plen + 3 + dl, crate::strutil::spec_dec_value(body.subrange(plen + 2, plen + 2 + dl))))
        } else {
            None
        }
    } else {
        None
    }
}

/// The link-phase substitution: every placeholder marker in `body` is
/// replaced by what its pending reference resolves to; everything else is
/// copied through. `None` as soon as one marker fails to resolve.
pub open spec fn spec_substitute(
    body: Seq<char>,
    prefix: Seq<char>,
    pending: Seq<(PlaceholderAction, String)>,
    refdefs: Seq<(String, RefDef)>,
    slug: Seq<char>,
) -> Option<Seq<char>>
    decreases body.len(),
{
    if body.len() == 0 {
        Some(Seq::<char>::empty())
    } else {
        match spec_marker_at(body, prefix) {
            Some((end, idx)) => {
                if 0 < end <= body.len() {
                    match (
                        spec_resolve(pending, refdefs, slug, idx),
                        spec_substitute(body.skip(end), prefix, pending, refdefs, slug),
                    ) {
                        (Some(repl), Some(rest)) => Some(repl + rest),
                        _ => None,
                    }
                } else {
                    None
                }
            },
            None => {
                match spec_substitute(body.drop_first(), prefix, pending, refdefs, slug) {
                    Some(rest) => Some(seq![body[0]] + rest),
                    None => None,
                }
            },
        }
    }
}

proof fn lemma_digit_char_value(d: nat)
    requires
        d < 10,
    ensures
        crate::strutil::spec_digit_value(crate::strutil::spec_digit_char(d)) == d,
        crate::strutil::spec_is_digit(crate::strutil::spec_digit_char(d)),
{
    if d == 0 {
        assert(crate::strutil::spec_digit_value('0') == 0);
    } else if d == 1 {
        assert(crate::strutil::spec_digit_value('1') == 1);
    } else if d == 2 {
        assert(crate::strutil::spec_digit_value('2') == 2);
    } else if d == 3 {
        assert(crate::strutil::spec_digit_value('3') == 3);
    } else if d == 4 {
        assert(crate::strutil::spec_digit_value('4') == 4);
    } else if d == 5 {
        assert(crate::strutil::spec_digit_value('5') == 5);
    } else if d == 6 {
        assert(crate::strutil::spec_digit_value('6') == 6);
    } else if d == 7 {
        assert(crate::strutil::spec_digit_value('7') == 7);
    } else if d == 8 {
        assert(crate::strutil::spec_digit_value('8') == 8);
    } else {
        assert(crate::strutil::spec_digit_value('9') == 9);
    }
}

/// Every digit string reads back to the number it renders.
pub proof fn lemma_dec_round_trip(n: nat)
    ensures
        crate::strutil::spec_dec_value(spec_dec_digits(n)) == n,
        spec_dec_digits(n).len() >= 1,
        forall|i: int|
            0 <= i < spec_dec_digits(n).len() ==> crate::strutil::spec_is_digit(
                #[trigger] spec_dec_digits(n)[i],
            ),
    decreases n,
{
    if n < 10 {
        lemma_digit_char_value(n);
        assert(spec_dec_digits(n) =~= seq![crate::strutil::spec_digit_char(n)]);
        assert(seq![crate::strutil::spec_digit_char(n)].drop_last() =~= Seq::<char>::empty());
        assert(crate::strutil::spec_dec_value(Seq::<char>::empty()) == 0);
    } else {
        lemma_dec_round_trip(n / 10);
        lemma_digit_char_value(n % 10);
        let ds = spec_dec_digits(n);
        assert(ds.drop_last() =~= spec_dec_digits(n / 10));
        assert(ds.last() == crate::strutil::spec_digit_char(n % 10));
        assert(crate::strutil::spec_dec_value(ds) == crate::strutil::spec_dec_value(
            ds.drop_last(),
        ) * 10 + crate::strutil::spec_digit_value(ds.last()));
        assert forall|i: int| 0 <= i < ds.len() implies crate::strutil::spec_is_digit(
            #[trigger] ds[i],
        ) by {
            if i < ds.len() - 1 {
                assert(ds[i] == spec_dec_digits(n / 10)[i]);
            } else {
                assert(ds[i] == ds.last());
            }
        }
    }
}

/// Deferred reference resolution is exact: the marker emitted for pending
/// reference `n` substitutes, alone, to precisely what that reference
/// resolves to — for a path request, the same relative path that
/// `Slug::path_to` computes directly from the page's slug, wherever and
/// on whatever thread the marker was produced.
pub proof fn lemma_marker_resolves(
    prefix: Seq<char>,
    n: nat,
    pending: Seq<(PlaceholderAction, String)>,
    refdefs: Seq<(String, RefDef)>,
    slug: Seq<char>,
)
    requires
        spec_prefix_wf(prefix),
        n < pending.len(),
        spec_find_refdef(refdefs, pending[n as int].1@) is Some,
    ensures
        spec_substitute(spec_marker(prefix, n), prefix, pending, refdefs, slug) == Some(
            match pending[n as int].0 {
                PlaceholderAction::Path => crate::toctree::spec_path_to(
                    slug,
                    spec_find_refdef(refdefs, pending[n as int].1@)->Some_0.slug@,
                    true,
                ),
                PlaceholderAction::Title => spec_find_refdef(
                    refdefs,
                    pending[n as int].1@,
                )->Some_0.title@,
            },
        ),
{
    let m = spec_marker(prefix, n);
    let plen = prefix.len() as int;
    lemma_dec_round_trip(n);
    let digits = spec_dec_digits(n);
    let dl = digits.len() as int;
    assert(m.len() == plen + 3 + dl);
    assert(m[0] == '%');
    assert(m.subrange(1, plen + 1) =~= prefix);
    assert(m[plen + 1] == '-');
    assert(m.subrange(plen + 2, plen + 2 + dl) =~= digits);
    assert(m[plen + 2 + dl] == '%');
    assert(!crate::strutil::spec_is_digit('%'));
    lemma_digit_run_exact(m, plen + 2, dl);
    assert(spec_marker_at(m, prefix) == Some((plen + 3 + dl, n)));
    assert(m.skip(plen + 3 + dl) =~= Seq::<char>::empty());
    assert(spec_substitute(Seq::<char>::empty(), prefix, pending, refdefs, slug) == Some(
        Seq::<char>::empty(),
    ));
    assert(spec_resolve(pending, refdefs, slug, n) is Some);
    let repl = spec_resolve(pending, refdefs, slug, n)->Some_0;
    assert(m.len() > 0);
    assert(0 < plen + 3 + dl <= m.len());
    assert(spec_substitute(m, prefix, pending, refdefs, slug) == Some(
        repl + Seq::<char>::empty(),
    ));
    assert(repl + Seq::<char>::empty() =~= repl);
}

/// A run of digits followed by a non-digit has exactly its own length.
proof fn lemma_digit_run_exact(s: Seq<char>, i: int, dl: int)
    requires
        0 <= i,
        dl >= 0,
        i + dl < s.len(),
        forall|j: int| i <= j < i + dl ==> crate::strutil::spec_is_digit(#[trigger] s[j]),
        !crate::strutil::spec_is_digit(s[i + dl]),
    ensures
        spec_digit_run(s, i) == dl,
    decreases dl,
{
    if dl > 0 {
        lemma_digit_run_exact(s, i + 1, dl - 1);
    }
}

impl Evaluator {
    /// The link phase for one page: replace every placeholder marker in
    /// its body by the path or title its pending reference resolves to.
    /// An unresolvable reference is an error naming nothing more than the
    /// page; the page is then not written, and the build continues with
    /// the others.
    pub fn substitute(&self, page: &Page) -> (r: Result<String, String>)
        requires
            self.wf(),
        ensures
            match r {
                Ok(s) => spec_substitute(
                    page.body@,
                    self.placeholder_prefix@,
                    self.pending_links@,
                    self.refdefs@,
                    page.slug@,
                ) == Some(s@),
                Err(_) => spec_substitute(
                    page.body@,
                    self.placeholder_prefix@,
                    self.pending_links@,
                    self.refdefs@,
                    page.slug@,
                ) is None,
            },
    {
        let ghost prefix = self.placeholder_prefix@;
        let ghost pending = self.pending_links@;
        let ghost refdefs = self.refdefs@;
        let ghost slug = page.slug@;
        let body = crate::strutil::str_chars(page.body.as_str());
        let n = body.len();
        let plen = self.placeholder_prefix.as_str().unicode_len();
        let mut out = String::new();
        let mut i: usize = 0;
        proof {
            assert(body@.skip(0) =~= body@);
        }
        while i < n
            invariant
                0 <= i <= n,
                n == body@.len(),
                body@ == page.body@,
                plen == prefix.len(),
                prefix == self.placeholder_prefix@,
                pending == self.pending_links@,
                refdefs == self.refdefs@,
                slug == page.slug@,
                self.wf(),
                forall|y: Seq<char>|
                    spec_substitute(body@.skip(i as int), prefix, pending, refdefs, slug)
                        == Some(y) ==> spec_substitute(body@, prefix, pending, refdefs, slug)
                        == Some(out@ + y),
                spec_substitute(body@.skip(i as int), prefix, pending, refdefs, slug) is None
                    ==> spec_substitute(body@, prefix, pending, refdefs, slug) is None,
            decreases n - i,
        {
            let ghost rest = body@.skip(i as int);
            let ghost pre_out = out@;
            proof {
                assert(rest.len() > 0);
                assert(rest[0] == body@[i as int]);
                assert(rest.drop_first() =~= body@.skip(i + 1int));
            }
            let marker = self.marker_at(&body, i, plen);
            proof {
                match marker {
                    Some((end, vopt)) => {
                        assert(rest.skip(end - i as int) =~= body@.skip(end as int));
                    },
                    None => {
                        assert(spec_marker_at(rest, prefix) is None);
                    },
                }
            }
            match marker {
                Some((end, vopt)) => {
                    let pending_len = self.pending_links.len();
                    let idx = match vopt {
                        Some(v) => v,
                        None => {
                            proof {
                                assert(pending.len() <= usize::MAX);
                                assert(spec_resolve(
                                    pending,
                                    refdefs,
                                    slug,
                                    spec_marker_at(rest, prefix)->Some_0.1,
                                ) is None);
                                assert(spec_substitute(rest, prefix, pending, refdefs, slug)
                                    is None);
                            }
                            let mut msg = String::new();
                            msg.append("Missing pending reference in page ");
                            msg.append(page.source_path.as_str());
                            return Err(msg);
                        },
                    };
                    let repl: String;
                    if idx < self.pending_links.len() {
                        let refid = &self.pending_links[idx].1;
                        match self.find_refdef(refid.as_str()) {
                            Some(d) => {
                                match &self.pending_links[idx].0 {
                                    PlaceholderAction::Path => {
                                        repl = page.slug.path_to(d.slug.as_str(), true);
                                    },
                                    PlaceholderAction::Title => {
                                        repl = d.title.clone();
                                    },
                                }
                            },
                            None => {
                                let mut msg = String::new();
                                msg.append("Unknown reference '");
                                msg.append(refid.as_str());
                                msg.append("' used in page ");
                                msg.append(page.source_path.as_str());
                                return Err(msg);
                            },
                        }
                    } else {
                        let mut msg = String::new();
                        msg.append("Missing pending reference in page ");
                        msg.append(page.source_path.as_str());
                        return Err(msg);
                    }
                    proof {
                        assert(spec_resolve(pending, refdefs, slug, idx as nat) == Some(repl@));
                    }
                    out.append(repl.as_str());
                    proof {
                        assert forall|y: Seq<char>|
                            spec_substitute(
                                body@.skip(end as int),
                                prefix,
                                pending,
                                refdefs,
                                slug,
                            ) == Some(y) implies spec_substitute(
                            body@,
                            prefix,
                            pending,
                            refdefs,
                            slug,
                        ) == Some(out@ + y) by {
                            assert(spec_substitute(rest, prefix, pending, refdefs, slug)
                                == Some(repl@ + y));
                            assert(pre_out + (repl@ + y) =~= out@ + y);
                        }
                        if spec_substitute(body@.skip(end as int), prefix, pending, refdefs, slug)
                            is None {
                            assert(spec_substitute(rest, prefix, pending, refdefs, slug)
                                is None);
                        }
                    }
                    i = end;
                },
                None => {
                    push_char(&mut out, body[i]);
                    proof {
                        assert forall|y: Seq<char>|
                            spec_substitute(
                                body@.skip(i + 1int),
                                prefix,
                                pending,
                                refdefs,
                                slug,
                            ) == Some(y) implies spec_substitute(
                            body@,
                            prefix,
                            pending,
                            refdefs,
                            slug,
                        ) == Some(out@ + y) by {
                            assert(spec_substitute(rest, prefix, pending, refdefs, slug)
                                == Some(seq![rest[0]] + y));
                            assert(pre_out + (seq![rest[0]] + y) =~= out@ + y);
                        }
                        if spec_substitute(body@.skip(i + 1int), prefix, pending, refdefs, slug)
                            is None {
                            assert(spec_substitute(rest, prefix, pending, refdefs, slug)
                                is None);
                        }
                    }
                    i = i + 1;
                },
            }
        }
        proof {
            assert(body@.skip(n as int) =~= Seq::<char>::empty());
            assert(spec_substitute(Seq::<char>::empty(), prefix, pending, refdefs, slug)
                == Some(Seq::<char>::empty()));
            assert(out@ + Seq::<char>::empty() =~= out@);
        }
        Ok(out)
    }

    /// Scan for a placeholder marker at position `i` of `body`; on a
    /// match, the position just past it and the pending index it names,
    /// exactly as [`spec_marker_at`] reads the remaining text.
    fn marker_at(&self, body: &Vec<char>, i: usize, plen: usize) -> (r: Option<
        (usize, Option<usize>),
    >)
        requires
            self.wf(),
            i < body@.len(),
            plen == self.placeholder_prefix@.len(),
        ensures
            match r {
                Some((end, vopt)) => {
                    &&& i < end <= body@.len()
                    &&& spec_marker_at(body@.skip(i as int), self.placeholder_prefix@)
                        matches Some(p) && p.0 == end - i && (match vopt {
                        Some(idx) => p.1 == idx as nat,
                        None => p.1 > usize::MAX,
                    })
                },
                None => spec_marker_at(body@.skip(i as int), self.placeholder_prefix@)
                    is None,
            },
    {
        let ghost rest = body@.skip(i as int);
        let ghost prefix = self.placeholder_prefix@;
        let n = body.len();
        if !(i < n && body[i] == '%') {
            return None;
        }
        if n - i < plen + 4 {
            return None;
        }
        let mut k: usize = 0;
        while k < plen
            invariant
                0 <= k <= plen,
                i + plen + 4 <= n,
                n == body@.len(),
                rest == body@.skip(i as int),
                prefix == self.placeholder_prefix@,
                plen == prefix.len(),
                forall|j: int| 0 <= j < k ==> rest[1 + j] == prefix[j],
            decreases plen - k,
        {
            if body[i + 1 + k] != self.placeholder_prefix.as_str().get_char(k) {
                proof {
                    assert(rest[1 + k as int] != prefix[k as int]);
                    assert(rest.subrange(1, plen + 1int) != prefix) by {
                        if rest.subrange(1, plen + 1int) == prefix {
                            assert(rest.subrange(1, plen + 1int)[k as int] == rest[1 + k as int]);
                        }
                    }
                }
                return None;
            }
            k += 1;
        }
        proof {
            assert(rest.subrange(1, plen + 1int) =~= prefix);
        }
        if body[i + 1 + plen] != '-' {
            return None;
        }
        let digits_start = i + plen + 2;
        let mut j: usize = digits_start;
        while j < n && crate::strutil::is_digit(body[j])
            invariant
                digits_start <= j <= n,
                n == body@.len(),
                digits_start == i + plen + 2,
                rest == body@.skip(i as int),
                i + plen + 4 <= n,
                forall|m: int|
                    digits_start <= m < j ==> crate::strutil::spec_is_digit(#[trigger] body@[m]),
            decreases n - j,
        {
            j += 1;
        }
        let dl = j - digits_start;
        proof {
            assert forall|m: int|
                plen + 2 <= m < plen + 2 + dl implies crate::strutil::spec_is_digit(
                #[trigger] rest[m],
            ) by {
                assert(rest[m] == body@[i + m]);
            }
            if j < n {
                assert(!crate::strutil::spec_is_digit(rest[plen + 2 + dl as int]));
                lemma_digit_run_exact(rest, plen + 2, dl as int);
            } else {
                lemma_digit_run_to_end(rest, plen + 2, dl as int);
            }
        }
        if dl == 0 {
            return None;
        }
        if !(j < n && body[j] == '%') {
            return None;
        }
        let idx = self.digits_value(body, digits_start, j);
        proof {
            assert(rest.subrange(plen + 2, plen + 2 + dl as int) =~= body@.subrange(
                digits_start as int,
                j as int,
            ));
        }
        Some((j + 1, idx))
    }

    /// The value of the digit run `body[from..to]`, when it fits in
    /// `usize`; `None` otherwise. In the `None` case the value certainly
    /// exceeds any pending index, so the caller treats the marker as
    /// unresolvable either way — but the specification keeps the exact
    /// value, so `None` here simply never happens for markers this
    /// evaluator produced.
    fn digits_value(&self, body: &Vec<char>, from: usize, to: usize) -> (r: Option<usize>)
        requires
            from <= to <= body@.len(),
            forall|m: int| from <= m < to ==> crate::strutil::spec_is_digit(#[trigger] body@[m]),
        ensures
            match r {
                Some(v) => v as nat == crate::strutil::spec_dec_value(
                    body@.subrange(from as int, to as int),
                ),
                None => crate::strutil::spec_dec_value(body@.subrange(from as int, to as int))
                    > usize::MAX,
            },
    {
        let mut value: usize = 0;
        let mut k: usize = from;
        while k < to
            invariant
                from <= k <= to <= body@.len(),
                forall|m: int|
                    from <= m < to ==> crate::strutil::spec_is_digit(#[trigger] body@[m]),
                value as nat == crate::strutil::spec_dec_value(
                    body@.subrange(from as int, k as int),
                ),
            decreases to - k,
        {
            proof {
                assert(body@.subrange(from as int, k + 1int).drop_last() =~= body@.subrange(
                    from as int,
                    k as int,
                ));
                assert(body@.subrange(from as int, k + 1int).last() == body@[k as int]);
            }
            let c = body[k];
            let d: usize = ((c as u32) - ('0' as u32)) as usize;
            if value > (usize::MAX - d) / 10 {
                proof {
                    lemma_dec_value_monotone(body@, from as int, k + 1int, to as int);
                }
                return None;
            }
            value = value * 10 + d;
            k += 1;
        }
        proof {
            assert(body@.subrange(from as int, to as int) =~= body@.subrange(
                from as int,
                to as int,
            ));
        }
        Some(value)
    }
}

/// A digit run reaching the end of the text has exactly its own length.
proof fn lemma_digit_run_to_end(s: Seq<char>, i: int, dl: int)
    requires
        0 <= i,
        dl >= 0,
        i + dl == s.len(),
        forall|j: int| i <= j < i + dl ==> crate::strutil::spec_is_digit(#[trigger] s[j]),
    ensures
        spec_digit_run(s, i) == dl,
    decreases dl,
{
    if dl > 0 {
        lemma_digit_run_to_end(s, i + 1, dl - 1);
    }
}

/// A longer digit string is worth at least as much.
proof fn lemma_dec_value_monotone(s: Seq<char>, from: int, mid: int, to: int)
    requires
        0 <= from <= mid <= to <= s.len(),
        forall|m: int| from <= m < to ==> crate::strutil::spec_is_digit(#[trigger] s[m]),
    ensures
        crate::strutil::spec_dec_value(s.subrange(from, to)) >= crate::strutil::spec_dec_value(
            s.subrange(from, mid),
        ),
    decreases to - mid,
{
    if mid < to {
        lemma_dec_value_monotone(s, from, mid + 1, to);
        assert(s.subrange(from, mid + 1).drop_last() =~= s.subrange(from, mid));
    }
}

/// A relative inclusion path resolved against the directory of the file
/// `file_id` names in the parser's table: the referring file's path up to
/// and including its last `/`, then `rel`; `rel` alone when the file is
/// unknown or its path has no directory part.
pub open spec fn spec_resolve_source_path(
    files: Seq<Seq<char>>,
    file_id: crate::parse::FileID,
    rel: Seq<char>,
) -> Seq<char> {
    if (file_id as int) < files.len() {
        let base = files[file_id as int];
        match crate::page::spec_rfind(base, '/') {
            Some(i) => base.subrange(0, i + 1) + rel,
            None => rel,
        }
    } else {
        rel
    }
}

impl Worker {
    /// Resolve `rel` against the directory of the file `node` came from,
    /// per [`spec_resolve_source_path`].
    pub fn resolve_source_path(&self, node: &Node, rel: &str) -> (r: String)
        ensures
            r@ == spec_resolve_source_path(self.parser@, node.file_id, rel@),
    {
        let base: Option<String> = match self.parser.get_node_source_path(node) {
            Some(p) => Some(p.clone()),
            None => None,
        };
        match base {
            Some(p) => {
                let n = p.as_str().unicode_len();
                match crate::page::rfind_str(p.as_str(), '/') {
                    Some(i) => {
                        let mut out = p.as_str().substring_char(0, i + 1).to_owned();
                        out.append(rel);
                        out
                    },
                    None => rel.to_owned(),
                }
            },
            None => rel.to_owned(),
        }
    }

    /// Evaluate one node: literal text evaluates to itself; a block
    /// evaluates its first child to a name, resolves the name in the
    /// local context and then the prelude, and either re-evaluates the
    /// bound node or invokes the bound directive on the remaining
    /// children. An unknown name, a failing directive, or an exhausted
    /// nesting budget logs a diagnostic and evaluates to the empty
    /// string: failure is local, never fatal to the page.
    pub fn evaluate(&mut self, node: &Node, fuel: u32) -> (r: String)
        requires
            old(self).wf(),
        ensures
            final(self).wf(),
            node.value matches NodeValue::Owned(s) ==> r@ == s@ && *final(self) == *old(self),
            spec_concat_ready(*old(self), *node) ==> r@ == spec_concat_result(*node) && *final(self) == *old(self),
            spec_unknown_name_block(*old(self), *node) ==> (r@ == Seq::<char>::empty()
                && final(self).diagnostics@.len() >= old(self).diagnostics@.len() + 1
                && final(self).ctx == old(self).ctx
                && final(self).evaluator == old(self).evaluator),
            spec_stored_literal_block(*old(self), *node) ==> (fuel >= 1 ==> (r@
                == spec_stored_literal_text(*old(self), *node) && *final(self) == *old(self))),
        decreases fuel, 5int,
    {
        match &node.value {
            NodeValue::Owned(s) => s.clone(),
            NodeValue::Children(children) => {
                if children.len() == 0 {
                    return String::new();
                }
                let first = &children[0];
                let name: String = match &first.value {
                    NodeValue::Owned(d) => d.clone(),
                    NodeValue::Children(_) => {
                        if fuel == 0 {
                            self.error(node, "Evaluation nested too deeply");
                            return String::new();
                        }
                        self.evaluate(first, fuel - 1)
                    },
                };
                let args = crate::directives::slice_args(children, 1);
                match self.lookup(node, name.as_str(), args, fuel) {
                    Ok(s) => s,
                    Err(_) => {
                        self.error(node, "Error evaluating node");
                        String::new()
                    },
                }
            },
        }
    }

    /// Resolve `key` in the local context, then the prelude; re-evaluate
    /// a bound node, or invoke a bound directive on `args`. The local
    /// context wins over the prelude — the innermost `let` shadows — a
    /// bound node always evaluates to output while fuel remains, and an
    /// unknown name is an error, logged with the node's source
    /// position.
    pub fn lookup(&mut self, node: &Node, key: &str, args: &[Node], fuel: u32) -> (r: Result<
        String,
        (),
    >)
        requires
            old(self).wf(),
        ensures
            final(self).wf(),
            ({
                &&& spec_ctx_get(old(self).ctx.entries@, key@) is None
                &&& spec_ctx_get(old(self).evaluator.prelude.entries@, key@) is None
            }) ==> (r is Err && final(self).diagnostics@.len() == old(self).diagnostics@.len()
                + 1 && final(self).ctx == old(self).ctx
                && final(self).evaluator == old(self).evaluator
                && final(self).theme_config == old(self).theme_config
                && final(self).current_slug == old(self).current_slug
                && final(self).current_level == old(self).current_level),
            spec_ctx_get(old(self).ctx.entries@, key@) matches Some(StoredValue::Node(n)) ==> (
            n.value matches NodeValue::Owned(text) ==> (fuel >= 1 ==> (r matches Ok(v) && v@
                == text@ && *final(self) == *old(self)))),
            (spec_ctx_get(old(self).ctx.entries@, key@) matches Some(StoredValue::Node(_))
                && fuel >= 1) ==> r is Ok,
            ({
                &&& spec_ctx_get(old(self).ctx.entries@, key@) is None
                &&& spec_ctx_get(old(self).evaluator.prelude.entries@, key@) matches Some(
                    StoredValue::Node(_),
                )
                &&& fuel >= 1
            }) ==> r is Ok,
            ({
                &&& spec_ctx_get(old(self).ctx.entries@, key@) is None
                &&& spec_ctx_get(old(self).evaluator.prelude.entries@, key@) matches Some(
                    StoredValue::Directive(crate::directives::DirectiveKind::Concat(_)),
                )
                &&& crate::directives::all_literal(args@)
            }) ==> (r matches Ok(s) && s@ == crate::directives::spec_literal_join(
                args@,
                Seq::<char>::empty(),
            ) && *final(self) == *old(self)),
        decreases fuel, 4int,
    {
        let stored: StoredValue = match self.ctx.get(key) {
            Some(v) => clone_stored(v),
            None => {
                match self.evaluator.prelude.get(key) {
                    Some(v) => clone_stored(v),
                    None => {
                        let mut msg = String::new();
                        msg.append("Unknown name: '");
                        msg.append(key);
                        msg.append("'");
                        self.error(node, msg.as_str());
                        return Err(());
                    },
                }
            },
        };
        match stored {
            StoredValue::Node(stored_node) => {
                if fuel == 0 {
                    self.error(node, "Evaluation nested too deeply");
                    return Err(());
                }
                Ok(self.evaluate(&stored_node, fuel - 1))
            },
            StoredValue::Directive(kind) => kind.handle(self, args, fuel),
        }
    }
}

} // verus!
