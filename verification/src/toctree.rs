//! The table-of-contents tree: parent/child edges between page slugs,
//! registered by the `toctree` directive during evaluation, finalized with
//! the extracted page titles once all pages are built, and rendered as a
//! nested list in which exactly the ancestors of the page being rendered
//! are marked current.

use vstd::prelude::*;
use crate::page::{spec_count_char, spec_updirs, Slug};
use crate::strutil::push_char;

verus! {

/// One child entry of a parent slug: the child and, optionally, the title
/// the `toctree` directive gave it explicitly.
pub struct TocTreeElement {
    pub slug: Slug,
    pub title: Option<String>,
}

/// A child entry as the specifications see it.
pub open spec fn elem_view(e: TocTreeElement) -> (Seq<char>, Option<Seq<char>>) {
    (
        e.slug@,
        match e.title {
            Some(t) => Some(t@),
            None => None,
        },
    )
}

/// The children recorded under `key`, or `None` when no entry exists.
pub open spec fn spec_find_children(
    cs: Seq<(Slug, Vec<TocTreeElement>)>,
    key: Seq<char>,
) -> Option<Seq<TocTreeElement>>
    decreases cs.len(),
{
    if cs.len() == 0 {
        None
    } else if cs[0].0@ == key {
        Some(cs[0].1@)
    } else {
        spec_find_children(cs.drop_first(), key)
    }
}

/// The parents recorded under `key`, or `None` when no entry exists.
pub open spec fn spec_find_parents(
    ps: Seq<(Slug, Vec<Slug>)>,
    key: Seq<char>,
) -> Option<Seq<Slug>>
    decreases ps.len(),
{
    if ps.len() == 0 {
        None
    } else if ps[0].0@ == key {
        Some(ps[0].1@)
    } else {
        spec_find_parents(ps.drop_first(), key)
    }
}

/// The title recorded under `key`, or `None`.
pub open spec fn spec_find_title(ts: Seq<(Slug, String)>, key: Seq<char>) -> Option<Seq<char>>
    decreases ts.len(),
{
    if ts.len() == 0 {
        None
    } else if ts[0].0@ == key {
        Some(ts[0].1@)
    } else {
        spec_find_title(ts.drop_first(), key)
    }
}

/// `ancestor` is `child` itself, or a parent, grandparent, ... of it,
/// reachable by walking the inverse edges at most `fuel` steps.
pub open spec fn spec_reachable(
    ps: Seq<(Slug, Vec<Slug>)>,
    ancestor: Seq<char>,
    child: Seq<char>,
    fuel: nat,
) -> bool
    decreases fuel,
{
    ancestor == child || (fuel > 0 && match spec_find_parents(ps, child) {
        Some(parents) => exists|i: int|
            0 <= i < parents.len() && spec_reachable(
                ps,
                ancestor,
                (#[trigger] parents[i])@,
                (fuel - 1) as nat,
            ),
        None => false,
    })
}

/// More fuel never loses a path.
pub proof fn lemma_reachable_mono(
    ps: Seq<(Slug, Vec<Slug>)>,
    ancestor: Seq<char>,
    child: Seq<char>,
    f1: nat,
    f2: nat,
)
    requires
        spec_reachable(ps, ancestor, child, f1),
        f1 <= f2,
    ensures
        spec_reachable(ps, ancestor, child, f2),
    decreases f1,
{
    if ancestor == child {
    } else {
        match spec_find_parents(ps, child) {
            Some(parents) => {
                let i = choose|i: int|
                    0 <= i < parents.len() && spec_reachable(
                        ps,
                        ancestor,
                        (#[trigger] parents[i])@,
                        (f1 - 1) as nat,
                    );
                lemma_reachable_mono(ps, ancestor, parents[i]@, (f1 - 1) as nat, (f2 - 1) as nat);
            },
            None => {},
        }
    }
}

/// Each slug has at most one parent: the inverse map is a forest.
pub open spec fn spec_forest(ps: Seq<(Slug, Vec<Slug>)>) -> bool {
    forall|k: Seq<char>|
        match #[trigger] spec_find_parents(ps, k) {
            Some(parents) => parents.len() <= 1,
            None => true,
        }
}

/// In a forest, the slugs that reach `current` form a single chain: any
/// two of them are comparable, one an ancestor of the other. With the
/// current marking applied iff a slug reaches the current page, exactly
/// the chain of ancestors from the root down to the current page is
/// marked, and no slug off that chain is.
pub proof fn lemma_ancestors_chain(
    ps: Seq<(Slug, Vec<Slug>)>,
    x: Seq<char>,
    y: Seq<char>,
    current: Seq<char>,
    fx: nat,
    fy: nat,
)
    requires
        spec_forest(ps),
        spec_reachable(ps, x, current, fx),
        spec_reachable(ps, y, current, fy),
    ensures
        spec_reachable(ps, x, y, fx) || spec_reachable(ps, y, x, fy),
    decreases fx + fy,
{
    if x == current {
        lemma_reachable_mono(ps, y, current, fy, fy);
    } else if y == current {
    } else {
        match spec_find_parents(ps, current) {
            Some(parents) => {
                let i = choose|i: int|
                    0 <= i < parents.len() && spec_reachable(
                        ps,
                        x,
                        (#[trigger] parents[i])@,
                        (fx - 1) as nat,
                    );
                let j = choose|j: int|
                    0 <= j < parents.len() && spec_reachable(
                        ps,
                        y,
                        (#[trigger] parents[j])@,
                        (fy - 1) as nat,
                    );
                assert(parents.len() <= 1);
                assert(i == j);
                lemma_ancestors_chain(
                    ps,
                    x,
                    y,
                    parents[i]@,
                    (fx - 1) as nat,
                    (fy - 1) as nat,
                );
                if spec_reachable(ps, x, y, (fx - 1) as nat) {
                    lemma_reachable_mono(ps, x, y, (fx - 1) as nat, fx);
                } else {
                    lemma_reachable_mono(ps, y, x, (fy - 1) as nat, fy);
                }
            },
            None => {},
        }
    }
}

/// The navigation hierarchy. `children` maps a parent slug to its ordered
/// children; `inverse_children` maps a child back to its parents for
/// ancestor queries; `titles` holds each page's extracted title, fixed by
/// [`TocTree::finish`] after the build phase.
pub struct TocTree {
    pub root: Slug,
    pub children: Vec<(Slug, Vec<TocTreeElement>)>,
    pub inverse_children: Vec<(Slug, Vec<Slug>)>,
    pub titles: Vec<(Slug, String)>,
    pub pretty_url: bool,
}

/// The relative path from the page at `current` to `dest`.
pub open spec fn spec_path_to(current: Seq<char>, dest: Seq<char>, pretty: bool) -> Seq<char> {
    spec_updirs(
        spec_count_char(current, '/') + if pretty && current != "index"@ {
            1nat
        } else {
            0nat
        },
    ) + dest
}

/// One `<a>` element linking from `current` to `dest`, labelled `title`.
pub open spec fn spec_a_tag(
    current: Seq<char>,
    dest: Seq<char>,
    title: Seq<char>,
    pretty: bool,
) -> Seq<char> {
    "<a href=\""@ + spec_path_to(current, dest, pretty) + "\">"@ + title + "</a>"@
}

impl TocTree {
    /// The ancestor-walk budget: enough steps to cross every recorded
    /// inverse edge once.
    pub open spec fn spec_walk_fuel(&self) -> nat {
        if self.inverse_children@.len() < usize::MAX {
            self.inverse_children@.len() + 1
        } else {
            usize::MAX as nat
        }
    }

    /// The rendering of one child entry for the page `current`: an
    /// `<li>`, marked current exactly when the child is an ancestor of
    /// (or is) `current`, holding a link and the child's own rendered
    /// subtree. `None` when the child has neither an explicit nor an
    /// extracted title, or the nesting exceeds `fuel`.
    pub open spec fn spec_toc_item(
        &self,
        e: TocTreeElement,
        current: Seq<char>,
        fuel: nat,
    ) -> Option<Seq<char>>
        decreases fuel, 0int, 0int,
    {
        let li = if spec_reachable(
            self.inverse_children@,
            e.slug@,
            current,
            self.spec_walk_fuel(),
        ) {
            "<li class=\"current\">"@
        } else {
            "<li>"@
        };
        let title = match elem_view(e).1 {
            Some(t) => Some(t),
            None => spec_find_title(self.titles@, e.slug@),
        };
        match title {
            None => None,
            Some(t) => {
                let sub = if fuel == 0 {
                    None
                } else {
                    self.spec_toc_html(e.slug@, current, false, (fuel - 1) as nat)
                };
                match sub {
                    None => None,
                    Some(s) => Some(
                        li + spec_a_tag(current, e.slug@, t, self.pretty_url) + s + "</li>"@,
                    ),
                }
            },
        }
    }

    /// The rendering of the sibling list `items` for the page `current`:
    /// the concatenation of the items' renderings. `None` as soon as one
    /// item fails.
    pub open spec fn spec_toc_items(
        &self,
        items: Seq<TocTreeElement>,
        current: Seq<char>,
        fuel: nat,
    ) -> Option<Seq<char>>
        decreases fuel, 0int, items.len(),
    {
        if items.len() == 0 {
            Some(Seq::<char>::empty())
        } else {
            match (
                self.spec_toc_item(items[0], current, fuel),
                self.spec_toc_items(items.drop_first(), current, fuel),
            ) {
                (Some(x), Some(rest)) => Some(x + rest),
                _ => None,
            }
        }
    }

    /// The rendering of the subtree rooted at `root` for the page
    /// `current`: an empty string when `root` has no children; otherwise a
    /// `<ul>` of the child items, preceded, at the top level, by an entry
    /// for the tree's own root page (and the top-level list is closed
    /// twice, faithfully to the layout the themes expect).
    pub open spec fn spec_toc_html(
        &self,
        root: Seq<char>,
        current: Seq<char>,
        is_root: bool,
        fuel: nat,
    ) -> Option<Seq<char>>
        decreases fuel, 1int, 0int,
    {
        match spec_find_children(self.children@, root) {
            None => Some(Seq::<char>::empty()),
            Some(items) => {
                let head = if is_root {
                    match spec_find_title(self.titles@, self.root@) {
                        None => None,
                        Some(t) => Some(
                            "<li class=\"current\">"@ + spec_a_tag(
                                current,
                                Seq::<char>::empty(),
                                t,
                                self.pretty_url,
                            ) + "</li>"@,
                        ),
                    }
                } else {
                    Some(Seq::<char>::empty())
                };
                match (head, self.spec_toc_items(items, current, fuel)) {
                    (Some(h), Some(body)) => Some(
                        "<ul>"@ + h + body + "</ul>"@ + if is_root {
                            "</ul>"@
                        } else {
                            Seq::<char>::empty()
                        },
                    ),
                    _ => None,
                }
            },
        }
    }
}

proof fn lemma_find_children_skip(cs: Seq<(Slug, Vec<TocTreeElement>)>, key: Seq<char>, i: int)
    requires
        0 <= i <= cs.len(),
        forall|j: int| 0 <= j < i ==> (#[trigger] cs[j]).0@ != key,
    ensures
        spec_find_children(cs, key) == spec_find_children(cs.skip(i), key),
    decreases i,
{
    if i > 0 {
        assert(cs[0].0@ != key);
        lemma_find_children_skip(cs.drop_first(), key, i - 1);
        assert(cs.drop_first().skip(i - 1) =~= cs.skip(i));
    } else {
        assert(cs.skip(0) =~= cs);
    }
}

proof fn lemma_find_parents_skip(ps: Seq<(Slug, Vec<Slug>)>, key: Seq<char>, i: int)
    requires
        0 <= i <= ps.len(),
        forall|j: int| 0 <= j < i ==> (#[trigger] ps[j]).0@ != key,
    ensures
        spec_find_parents(ps, key) == spec_find_parents(ps.skip(i), key),
    decreases i,
{
    if i > 0 {
        assert(ps[0].0@ != key);
        lemma_find_parents_skip(ps.drop_first(), key, i - 1);
        assert(ps.drop_first().skip(i - 1) =~= ps.skip(i));
    } else {
        assert(ps.skip(0) =~= ps);
    }
}

proof fn lemma_find_title_skip(ts: Seq<(Slug, String)>, key: Seq<char>, i: int)
    requires
        0 <= i <= ts.len(),
        forall|j: int| 0 <= j < i ==> (#[trigger] ts[j]).0@ != key,
    ensures
        spec_find_title(ts, key) == spec_find_title(ts.skip(i), key),
    decreases i,
{
    if i > 0 {
        assert(ts[0].0@ != key);
        lemma_find_title_skip(ts.drop_first(), key, i - 1);
        assert(ts.drop_first().skip(i - 1) =~= ts.skip(i));
    } else {
        assert(ts.skip(0) =~= ts);
    }
}

/// Updating the first entry matching a key changes that key's lookup and
/// no other.
proof fn lemma_find_children_update(
    cs: Seq<(Slug, Vec<TocTreeElement>)>,
    i: int,
    p: (Slug, Vec<TocTreeElement>),
)
    requires
        0 <= i < cs.len(),
        cs[i].0@ == p.0@,
        forall|j: int| 0 <= j < i ==> (#[trigger] cs[j]).0@ != p.0@,
    ensures
        spec_find_children(cs.update(i, p), p.0@) == Some(p.1@),
        forall|k: Seq<char>|
            k != p.0@ ==> spec_find_children(cs.update(i, p), k) == #[trigger] spec_find_children(
                cs,
                k,
            ),
    decreases i,
{
    if i == 0 {
        assert(cs.update(0, p)[0] == p);
        assert forall|k: Seq<char>| k != p.0@ implies spec_find_children(cs.update(0, p), k)
            == #[trigger] spec_find_children(cs, k) by {
            assert(cs.update(0, p).drop_first() =~= cs.drop_first());
        }
    } else {
        lemma_find_children_update(cs.drop_first(), i - 1, p);
        assert(cs.update(i, p).drop_first() =~= cs.drop_first().update(i - 1, p));
        assert(cs.update(i, p)[0] == cs[0]);
        assert(cs[0].0@ != p.0@);
        assert(spec_find_children(cs.update(i, p), p.0@) == spec_find_children(
            cs.drop_first().update(i - 1, p),
            p.0@,
        ));
        assert forall|k: Seq<char>| k != p.0@ implies spec_find_children(cs.update(i, p), k)
            == #[trigger] spec_find_children(cs, k) by {
            if cs[0].0@ == k {
            } else {
                assert(spec_find_children(cs.update(i, p), k) == spec_find_children(
                    cs.drop_first().update(i - 1, p),
                    k,
                ));
                assert(spec_find_children(cs, k) == spec_find_children(cs.drop_first(), k));
            }
        }
    }
}

/// Appending an entry whose key is absent adds that key's lookup and
/// changes no other.
proof fn lemma_find_children_push(
    cs: Seq<(Slug, Vec<TocTreeElement>)>,
    p: (Slug, Vec<TocTreeElement>),
)
    requires
        forall|j: int| 0 <= j < cs.len() ==> (#[trigger] cs[j]).0@ != p.0@,
    ensures
        spec_find_children(cs.push(p), p.0@) == Some(p.1@),
        forall|k: Seq<char>|
            k != p.0@ ==> spec_find_children(cs.push(p), k) == #[trigger] spec_find_children(
                cs,
                k,
            ),
    decreases cs.len(),
{
    if cs.len() == 0 {
        assert(cs.push(p)[0] == p);
        assert forall|k: Seq<char>| k != p.0@ implies spec_find_children(cs.push(p), k)
            == #[trigger] spec_find_children(cs, k) by {
            assert(cs.push(p)[0] == p);
            assert(cs.push(p).drop_first() =~= Seq::<(Slug, Vec<TocTreeElement>)>::empty());
            assert(spec_find_children(cs.push(p), k) == spec_find_children(
                cs.push(p).drop_first(),
                k,
            ));
        }
    } else {
        lemma_find_children_push(cs.drop_first(), p);
        assert(cs.push(p).drop_first() =~= cs.drop_first().push(p));
        assert(cs.push(p)[0] == cs[0]);
        assert(cs[0].0@ != p.0@);
        assert(spec_find_children(cs.push(p), p.0@) == spec_find_children(
            cs.drop_first().push(p),
            p.0@,
        ));
        assert forall|k: Seq<char>| k != p.0@ implies spec_find_children(cs.push(p), k)
            == #[trigger] spec_find_children(cs, k) by {
            if cs[0].0@ == k {
            } else {
                assert(spec_find_children(cs.push(p), k) == spec_find_children(
                    cs.drop_first().push(p),
                    k,
                ));
                assert(spec_find_children(cs, k) == spec_find_children(cs.drop_first(), k));
            }
        }
    }
}

proof fn lemma_find_parents_update(ps: Seq<(Slug, Vec<Slug>)>, i: int, p: (Slug, Vec<Slug>))
    requires
        0 <= i < ps.len(),
        ps[i].0@ == p.0@,
        forall|j: int| 0 <= j < i ==> (#[trigger] ps[j]).0@ != p.0@,
    ensures
        spec_find_parents(ps.update(i, p), p.0@) == Some(p.1@),
        forall|k: Seq<char>|
            k != p.0@ ==> spec_find_parents(ps.update(i, p), k) == #[trigger] spec_find_parents(
                ps,
                k,
            ),
    decreases i,
{
    if i == 0 {
        assert(ps.update(0, p)[0] == p);
        assert forall|k: Seq<char>| k != p.0@ implies spec_find_parents(ps.update(0, p), k)
            == #[trigger] spec_find_parents(ps, k) by {
            assert(ps.update(0, p).drop_first() =~= ps.drop_first());
        }
    } else {
        lemma_find_parents_update(ps.drop_first(), i - 1, p);
        assert(ps.update(i, p).drop_first() =~= ps.drop_first().update(i - 1, p));
        assert(ps.update(i, p)[0] == ps[0]);
        assert(ps[0].0@ != p.0@);
        assert(spec_find_parents(ps.update(i, p), p.0@) == spec_find_parents(
            ps.drop_first().update(i - 1, p),
            p.0@,
        ));
        assert forall|k: Seq<char>| k != p.0@ implies spec_find_parents(ps.update(i, p), k)
            == #[trigger] spec_find_parents(ps, k) by {
            if ps[0].0@ == k {
            } else {
                assert(spec_find_parents(ps.update(i, p), k) == spec_find_parents(
                    ps.drop_first().update(i - 1, p),
                    k,
                ));
                assert(spec_find_parents(ps, k) == spec_find_parents(ps.drop_first(), k));
            }
        }
    }
}

proof fn lemma_find_parents_push(ps: Seq<(Slug, Vec<Slug>)>, p: (Slug, Vec<Slug>))
    requires
        forall|j: int| 0 <= j < ps.len() ==> (#[trigger] ps[j]).0@ != p.0@,
    ensures
        spec_find_parents(ps.push(p), p.0@) == Some(p.1@),
        forall|k: Seq<char>|
            k != p.0@ ==> spec_find_parents(ps.push(p), k) == #[trigger] spec_find_parents(
                ps,
                k,
            ),
    decreases ps.len(),
{
    if ps.len() == 0 {
        assert(ps.push(p)[0] == p);
        assert forall|k: Seq<char>| k != p.0@ implies spec_find_parents(ps.push(p), k)
            == #[trigger] spec_find_parents(ps, k) by {
            assert(ps.push(p)[0] == p);
            assert(ps.push(p).drop_first() =~= Seq::<(Slug, Vec<Slug>)>::empty());
            assert(spec_find_parents(ps.push(p), k) == spec_find_parents(
                ps.push(p).drop_first(),
                k,
            ));
        }
    } else {
        lemma_find_parents_push(ps.drop_first(), p);
        assert(ps.push(p).drop_first() =~= ps.drop_first().push(p));
        assert(ps.push(p)[0] == ps[0]);
        assert(ps[0].0@ != p.0@);
        assert(spec_find_parents(ps.push(p), p.0@) == spec_find_parents(
            ps.drop_first().push(p),
            p.0@,
        ));
        assert forall|k: Seq<char>| k != p.0@ implies spec_find_parents(ps.push(p), k)
            == #[trigger] spec_find_parents(ps, k) by {
            if ps[0].0@ == k {
            } else {
                assert(spec_find_parents(ps.push(p), k) == spec_find_parents(
                    ps.drop_first().push(p),
                    k,
                ));
                assert(spec_find_parents(ps, k) == spec_find_parents(ps.drop_first(), k));
            }
        }
    }
}

impl TocTree {
    pub fn new(root: Slug, pretty_url: bool) -> (t: TocTree)
        ensures
            t.root@ == root@,
            t.children@.len() == 0,
            t.inverse_children@.len() == 0,
            t.titles@.len() == 0,
            t.pretty_url == pretty_url,
    {
        TocTree {
            root,
            children: Vec::new(),
            inverse_children: Vec::new(),
            titles: Vec::new(),
            pretty_url,
        }
    }

    pub fn new_empty() -> (t: TocTree)
        ensures
            t.root@ == Seq::<char>::empty(),
            t.children@.len() == 0,
            t.inverse_children@.len() == 0,
            t.titles@.len() == 0,
            t.pretty_url == false,
    {
        TocTree::new(Slug::new(String::new()), false)
    }

    /// Fix the extracted page titles; called once, after all pages have
    /// been evaluated.
    pub fn finish(&mut self, titles: Vec<(Slug, String)>)
        ensures
            final(self).titles == titles,
            final(self).root == old(self).root,
            final(self).children == old(self).children,
            final(self).inverse_children == old(self).inverse_children,
            final(self).pretty_url == old(self).pretty_url,
    {
        self.titles = titles;
    }

    fn find_children_index(&self, key: &Slug) -> (r: Option<usize>)
        ensures
            match r {
                Some(i) => {
                    &&& i < self.children@.len()
                    &&& self.children@[i as int].0@ == key@
                    &&& forall|j: int|
                        0 <= j < i ==> (#[trigger] self.children@[j]).0@ != key@
                },
                None => forall|j: int|
                    0 <= j < self.children@.len() ==> (#[trigger] self.children@[j]).0@ != key@,
            },
    {
        let n = self.children.len();
        let mut i: usize = 0;
        while i < n
            invariant
                0 <= i <= n,
                n == self.children@.len(),
                forall|j: int| 0 <= j < i ==> (#[trigger] self.children@[j]).0@ != key@,
            decreases n - i,
        {
            if self.children[i].0.eq(key) {
                return Some(i);
            }
            i += 1;
        }
        None
    }

    fn find_parents_index(&self, key: &Slug) -> (r: Option<usize>)
        ensures
            match r {
                Some(i) => {
                    &&& i < self.inverse_children@.len()
                    &&& self.inverse_children@[i as int].0@ == key@
                    &&& forall|j: int|
                        0 <= j < i ==> (#[trigger] self.inverse_children@[j]).0@ != key@
                },
                None => forall|j: int|
                    0 <= j < self.inverse_children@.len() ==> (#[trigger] self.inverse_children@[
                        j
                    ]).0@ != key@,
            },
    {
        let n = self.inverse_children.len();
        let mut i: usize = 0;
        while i < n
            invariant
                0 <= i <= n,
                n == self.inverse_children@.len(),
                forall|j: int| 0 <= j < i ==> (#[trigger] self.inverse_children@[j]).0@ != key@,
            decreases n - i,
        {
            if self.inverse_children[i].0.eq(key) {
                return Some(i);
            }
            i += 1;
        }
        None
    }

    /// The children recorded under `key`.
    pub fn find_children<'s>(&'s self, key: &Slug) -> (r: Option<&'s Vec<TocTreeElement>>)
        ensures
            match r {
                Some(v) => spec_find_children(self.children@, key@) == Some(v@),
                None => spec_find_children(self.children@, key@) is None,
            },
    {
        match self.find_children_index(key) {
            Some(i) => {
                proof {
                    lemma_find_children_skip(self.children@, key@, i as int);
                    assert(self.children@.skip(i as int)[0] == self.children@[i as int]);
                }
                Some(&self.children[i].1)
            },
            None => {
                proof {
                    lemma_find_children_skip(
                        self.children@,
                        key@,
                        self.children@.len() as int,
                    );
                    assert(self.children@.skip(self.children@.len() as int) =~= Seq::<
                        (Slug, Vec<TocTreeElement>),
                    >::empty());
                }
                None
            },
        }
    }

    /// The parents recorded under `key`.
    pub fn find_parents<'s>(&'s self, key: &Slug) -> (r: Option<&'s Vec<Slug>>)
        ensures
            match r {
                Some(v) => spec_find_parents(self.inverse_children@, key@) == Some(v@),
                None => spec_find_parents(self.inverse_children@, key@) is None,
            },
    {
        match self.find_parents_index(key) {
            Some(i) => {
                proof {
                    lemma_find_parents_skip(self.inverse_children@, key@, i as int);
                    assert(self.inverse_children@.skip(i as int)[0] == self.inverse_children@[
                        i as int
                    ]);
                }
                Some(&self.inverse_children[i].1)
            },
            None => {
                proof {
                    lemma_find_parents_skip(
                        self.inverse_children@,
                        key@,
                        self.inverse_children@.len() as int,
                    );
                    assert(self.inverse_children@.skip(self.inverse_children@.len() as int)
                        =~= Seq::<(Slug, Vec<Slug>)>::empty());
                }
                None
            },
        }
    }

    /// The title recorded under `key`.
    pub fn find_title<'s>(&'s self, key: &Slug) -> (r: Option<&'s String>)
        ensures
            match r {
                Some(t) => spec_find_title(self.titles@, key@) == Some(t@),
                None => spec_find_title(self.titles@, key@) is None,
            },
    {
        let n = self.titles.len();
        let mut i: usize = 0;
        while i < n
            invariant
                0 <= i <= n,
                n == self.titles@.len(),
                forall|j: int| 0 <= j < i ==> (#[trigger] self.titles@[j]).0@ != key@,
            decreases n - i,
        {
            if self.titles[i].0.eq(key) {
                proof {
                    lemma_find_title_skip(self.titles@, key@, i as int);
                    assert(self.titles@.skip(i as int)[0] == self.titles@[i as int]);
                }
                return Some(&self.titles[i].1);
            }
            i += 1;
        }
        proof {
            lemma_find_title_skip(self.titles@, key@, n as int);
            assert(self.titles@.skip(n as int) =~= Seq::<(Slug, String)>::empty());
        }
        None
    }

    /// Register one `parent -> child` edge and its reverse. The child is
    /// appended to the parent's ordered child list; the parent is appended
    /// to the child's parent list; nothing else changes.
    pub fn add(&mut self, parent_slug: &Slug, child: Slug, title: Option<String>)
        ensures
            spec_find_children(final(self).children@, parent_slug@) matches Some(l) && {
                let l0 = match spec_find_children(old(self).children@, parent_slug@) {
                    Some(l0) => l0,
                    None => Seq::<TocTreeElement>::empty(),
                };
                &&& l.len() == l0.len() + 1
                &&& l.subrange(0, l0.len() as int) == l0
                &&& elem_view(l.last()) == (
                    child@,
                    match title {
                        Some(t) => Some(t@),
                        None => None::<Seq<char>>,
                    },
                )
            },
            forall|k: Seq<char>|
                k != parent_slug@ ==> spec_find_children(final(self).children@, k)
                    == #[trigger] spec_find_children(old(self).children@, k),
            spec_find_parents(final(self).inverse_children@, child@) matches Some(l) && {
                let l0 = match spec_find_parents(old(self).inverse_children@, child@) {
                    Some(l0) => l0,
                    None => Seq::<Slug>::empty(),
                };
                &&& l.len() == l0.len() + 1
                &&& l.subrange(0, l0.len() as int) == l0
                &&& l.last()@ == parent_slug@
            },
            forall|k: Seq<char>|
                k != child@ ==> spec_find_parents(final(self).inverse_children@, k)
                    == #[trigger] spec_find_parents(old(self).inverse_children@, k),
            final(self).root == old(self).root,
            final(self).titles == old(self).titles,
            final(self).pretty_url == old(self).pretty_url,
    {
        let inv_entry = parent_slug.clone();
        let ghost ps0 = self.inverse_children@;
        match self.find_parents_index(&child) {
            Some(i) => {
                let mut entry = self.inverse_children.remove(i);
                entry.1.push(inv_entry);
                self.inverse_children.insert(i, entry);
                proof {
                    let v = self.inverse_children@[i as int];
                    assert(self.inverse_children@ =~= ps0.update(i as int, v));
                    lemma_find_parents_update(ps0, i as int, v);
                    lemma_find_parents_skip(ps0, v.0@, i as int);
                    assert(ps0.skip(i as int)[0] == ps0[i as int]);
                    assert(spec_find_parents(ps0, v.0@) == Some(ps0[i as int].1@));
                }
            },
            None => {
                let mut parents: Vec<Slug> = Vec::new();
                parents.push(inv_entry);
                let entry = (child.clone(), parents);
                proof {
                    lemma_find_parents_push(ps0, entry);
                    lemma_find_parents_skip(ps0, entry.0@, ps0.len() as int);
                    assert(ps0.skip(ps0.len() as int) =~= Seq::<(Slug, Vec<Slug>)>::empty());
                    assert(spec_find_parents(ps0, entry.0@) is None);
                    assert(entry.1@.subrange(0, 0) =~= Seq::<Slug>::empty());
                }
                self.inverse_children.push(entry);
            },
        }
        let new_element = TocTreeElement { slug: child, title };
        let ghost cs0 = self.children@;
        match self.find_children_index(parent_slug) {
            Some(i) => {
                let mut entry = self.children.remove(i);
                entry.1.push(new_element);
                self.children.insert(i, entry);
                proof {
                    let v = self.children@[i as int];
                    assert(self.children@ =~= cs0.update(i as int, v));
                    lemma_find_children_update(cs0, i as int, v);
                    lemma_find_children_skip(cs0, v.0@, i as int);
                    assert(cs0.skip(i as int)[0] == cs0[i as int]);
                    assert(spec_find_children(cs0, v.0@) == Some(cs0[i as int].1@));
                }
            },
            None => {
                let mut elems: Vec<TocTreeElement> = Vec::new();
                elems.push(new_element);
                let entry = (parent_slug.clone(), elems);
                proof {
                    lemma_find_children_push(cs0, entry);
                    lemma_find_children_skip(cs0, entry.0@, cs0.len() as int);
                    assert(cs0.skip(cs0.len() as int) =~= Seq::<(Slug, Vec<TocTreeElement>)>::empty());
                    assert(spec_find_children(cs0, entry.0@) is None);
                    assert(entry.1@.subrange(0, 0) =~= Seq::<TocTreeElement>::empty());
                }
                self.children.push(entry);
            },
        }
        proof {
            match spec_find_children(self.children@, parent_slug@) {
                Some(l) => {
                    let l0 = match spec_find_children(old(self).children@, parent_slug@) {
                        Some(l0) => l0,
                        None => Seq::<TocTreeElement>::empty(),
                    };
                    assert(l.subrange(0, l0.len() as int) =~= l0);
                },
                None => {},
            }
            match spec_find_parents(self.inverse_children@, new_element.slug@) {
                Some(l) => {
                    let l0 = match spec_find_parents(old(self).inverse_children@,
                        new_element.slug@) {
                        Some(l0) => l0,
                        None => Seq::<Slug>::empty(),
                    };
                    assert(l.subrange(0, l0.len() as int) =~= l0);
                },
                None => {},
            }
        }
    }

    /// Whether `ancestor` is `child` itself or a transitive parent of it,
    /// walking at most `fuel` inverse edges.
    pub fn is_ancestor_of(&self, ancestor: &Slug, child: &Slug, fuel: usize) -> (r: bool)
        ensures
            r == spec_reachable(self.inverse_children@, ancestor@, child@, fuel as nat),
        decreases fuel,
    {
        if ancestor.eq(child) {
            return true;
        }
        if fuel == 0 {
            return false;
        }
        match self.find_parents(child) {
            Some(parents) => {
                let n = parents.len();
                let mut i: usize = 0;
                while i < n
                    invariant
                        0 <= i <= n,
                        n == parents@.len(),
                        spec_find_parents(self.inverse_children@, child@) == Some(parents@),
                        fuel >= 1,
                        forall|j: int|
                            0 <= j < i ==> !spec_reachable(
                                self.inverse_children@,
                                ancestor@,
                                (#[trigger] parents@[j])@,
                                (fuel - 1) as nat,
                            ),
                    decreases n - i,
                {
                    if self.is_ancestor_of(ancestor, &parents[i], fuel - 1) {
                        proof {
                            let ps = self.inverse_children@;
                            assert(spec_reachable(
                                ps,
                                ancestor@,
                                (parents@[i as int])@,
                                (fuel as nat - 1) as nat,
                            ));
                            let pseq = spec_find_parents(ps, child@)->Some_0;
                            assert(pseq == parents@);
                            assert(0 <= (i as int) && (i as int) < pseq.len() && spec_reachable(
                                ps,
                                ancestor@,
                                (#[trigger] pseq[i as int])@,
                                (fuel as nat - 1) as nat,
                            ));
                            assert(spec_reachable(ps, ancestor@, child@, fuel as nat));
                        }
                        return true;
                    }
                    i += 1;
                }
                proof {
                    assert(!(exists|j: int|
                        0 <= j < parents@.len() && spec_reachable(
                            self.inverse_children@,
                            ancestor@,
                            (#[trigger] parents@[j])@,
                            (fuel - 1) as nat,
                        )));
                }
                false
            },
            None => false,
        }
    }
    /// Append `<a href="PATH">TITLE</a>` to `out`, linking `current` to
    /// `dest`.
    fn append_a_tag(&self, out: &mut String, current: &Slug, dest: &str, title: &str)
        ensures
            final(out)@ == old(out)@ + spec_a_tag(current@, dest@, title@, self.pretty_url),
    {
        out.append("<a href=\"");
        let path = current.path_to(dest, self.pretty_url);
        out.append(path.as_str());
        out.append("\">");
        out.append(title);
        out.append("</a>");
        proof {
            assert(old(out)@ + "<a href=\""@ + spec_path_to(current@, dest@, self.pretty_url)
                + "\">"@ + title@ + "</a>"@ =~= old(out)@ + spec_a_tag(
                current@,
                dest@,
                title@,
                self.pretty_url,
            ));
        }
    }

    /// Render the subtree rooted at `root` as nested lists, for the page
    /// `current_slug`: each child entry is marked current exactly when it
    /// is an ancestor of (or is) the current page. `fuel` bounds the
    /// nesting depth; an error names a child that has no title recorded.
    #[verifier::rlimit(100)]
    pub fn generate_html(
        &self,
        root: &Slug,
        current_slug: &Slug,
        is_root: bool,
        fuel: usize,
    ) -> (r: Result<String, String>)
        ensures
            match r {
                Ok(s) => self.spec_toc_html(root@, current_slug@, is_root, fuel as nat) == Some(
                    s@,
                ),
                Err(_) => self.spec_toc_html(root@, current_slug@, is_root, fuel as nat)
                    is None,
            },
        decreases fuel,
    {
        let ghost cur = current_slug@;
        let children = match self.find_children(root) {
            Some(c) => c,
            None => {
                return Ok(String::new());
            },
        };
        let mut result = String::new();
        result.append("<ul>");
        let mut head_s = String::new();
        if is_root {
            let title = match self.find_title(&self.root) {
                Some(t) => t,
                None => {
                    let mut msg = String::new();
                    msg.append("Failed to find toctree root '");
                    msg.append(self.root.as_str());
                    msg.append("'");
                    return Err(msg);
                },
            };
            head_s.append("<li class=\"current\">");
            let title = title.clone();
            self.append_a_tag(&mut head_s, current_slug, "", title.as_str());
            head_s.append("</li>");
        }
        let ghost head = head_s@;
        result.append(head_s.as_str());
        proof {
            reveal_strlit("<ul>");
            reveal_strlit("");
            assert(""@ =~= Seq::<char>::empty());
            assert(result@ =~= "<ul>"@ + head);
            if is_root {
                assert(head =~= "<li class=\"current\">"@ + spec_a_tag(
                    cur,
                    Seq::<char>::empty(),
                    spec_find_title(self.titles@, self.root@)->Some_0,
                    self.pretty_url,
                ) + "</li>"@);
            } else {
                assert(head =~= Seq::<char>::empty());
            }
        }
        let n = children.len();
        let ghost items_all = children@;
        let ghost acc0 = result@;
        proof {
            assert(result@.subrange(0, acc0.len() as int) =~= acc0);
            assert(items_all.skip(0) =~= items_all);
            assert(result@.subrange(acc0.len() as int, result@.len() as int) =~= Seq::<
                char,
            >::empty());
            assert forall|y: Seq<char>|
                self.spec_toc_items(items_all.skip(0), cur, fuel as nat) == Some(
                    y,
                ) implies self.spec_toc_items(items_all, cur, fuel as nat) == Some(
                result@.subrange(acc0.len() as int, result@.len() as int) + y,
            ) by {
                assert(result@.subrange(acc0.len() as int, result@.len() as int) + y =~= y);
            }
        }
        let mut i: usize = 0;
        while i < n
            invariant
                0 <= i <= n,
                n == items_all.len(),
                children@ == items_all,
                spec_find_children(self.children@, root@) == Some(items_all),
                cur == current_slug@,
                result@.subrange(0, acc0.len() as int) == acc0,
                acc0.len() <= result@.len(),
                forall|y: Seq<char>|
                    self.spec_toc_items(items_all.skip(i as int), cur, fuel as nat) == Some(y)
                        ==> self.spec_toc_items(items_all, cur, fuel as nat) == Some(
                        result@.subrange(acc0.len() as int, result@.len() as int) + y,
                    ),
                self.spec_toc_items(items_all.skip(i as int), cur, fuel as nat) is None
                    ==> self.spec_toc_items(items_all, cur, fuel as nat) is None,
            decreases n - i,
        {
            let ghost pre = result@;
            let ghost rest = items_all.skip(i as int);
            let ghost e = items_all[i as int];
            proof {
                assert(rest[0] == e);
                assert(rest.drop_first() =~= items_all.skip(i as int + 1));
            }
            let child = &children[i];
            let walk_fuel: usize = if self.inverse_children.len() < usize::MAX {
                self.inverse_children.len() + 1
            } else {
                usize::MAX
            };
            let marked = self.is_ancestor_of(&child.slug, current_slug, walk_fuel);
            if marked {
                result.append("<li class=\"current\">");
            } else {
                result.append("<li>");
            }
            let title: String = match &child.title {
                Some(t) => t.clone(),
                None => {
                    match self.find_title(&child.slug) {
                        Some(t) => t.clone(),
                        None => {
                            proof {
                                assert(self.spec_toc_item(e, cur, fuel as nat) is None);
                                assert(self.spec_toc_items(rest, cur, fuel as nat) is None);
                                assert(self.spec_toc_html(root@, cur, is_root, fuel as nat)
                                    is None);
                            }
                            let mut msg = String::new();
                            msg.append("Failed to find toctree entry '");
                            msg.append(child.slug.as_str());
                            msg.append("'");
                            return Err(msg);
                        },
                    }
                },
            };
            self.append_a_tag(&mut result, current_slug, child.slug.as_str(), title.as_str());
            if fuel == 0 {
                proof {
                    assert(self.spec_toc_item(e, cur, fuel as nat) is None);
                    assert(self.spec_toc_items(rest, cur, fuel as nat) is None);
                    assert(self.spec_toc_html(root@, cur, is_root, fuel as nat) is None);
                }
                let mut msg = String::new();
                msg.append("Toctree nesting too deep at '");
                msg.append(child.slug.as_str());
                msg.append("'");
                return Err(msg);
            }
            let sub = match self.generate_html(&child.slug, current_slug, false, fuel - 1) {
                Ok(s) => s,
                Err(err) => {
                    proof {
                        assert(self.spec_toc_item(e, cur, fuel as nat) is None);
                        assert(self.spec_toc_items(rest, cur, fuel as nat) is None);
                        assert(self.spec_toc_html(root@, cur, is_root, fuel as nat) is None);
                    }
                    return Err(err);
                },
            };
            result.append(sub.as_str());
            result.append("</li>");
            proof {
                let item = self.spec_toc_item(e, cur, fuel as nat)->Some_0;
                assert(self.spec_toc_item(e, cur, fuel as nat) is Some);
                assert(item =~= (if spec_reachable(
                    self.inverse_children@,
                    e.slug@,
                    cur,
                    self.spec_walk_fuel(),
                ) {
                    "<li class=\"current\">"@
                } else {
                    "<li>"@
                }) + spec_a_tag(cur, e.slug@, title@, self.pretty_url) + sub@ + "</li>"@);
                assert(result@ =~= pre + item);
                assert(result@.subrange(0, acc0.len() as int) =~= pre.subrange(
                    0,
                    acc0.len() as int,
                ));
                assert forall|y: Seq<char>|
                    self.spec_toc_items(items_all.skip(i + 1int), cur, fuel as nat) == Some(
                        y,
                    ) implies self.spec_toc_items(items_all, cur, fuel as nat) == Some(
                    result@.subrange(acc0.len() as int, result@.len() as int) + y,
                ) by {
                    assert(self.spec_toc_items(rest, cur, fuel as nat) == Some(item + y));
                    assert(pre.subrange(acc0.len() as int, pre.len() as int) + (item + y)
                        =~= result@.subrange(acc0.len() as int, result@.len() as int) + y);
                }
                if self.spec_toc_items(items_all.skip(i + 1int), cur, fuel as nat) is None {
                    assert(self.spec_toc_items(rest, cur, fuel as nat) is None);
                }
            }
            i += 1;
        }
        proof {
            assert(items_all.skip(n as int) =~= Seq::<TocTreeElement>::empty());
            assert(self.spec_toc_items(items_all.skip(n as int), cur, fuel as nat) == Some(
                Seq::<char>::empty(),
            ));
            assert(result@.subrange(acc0.len() as int, result@.len() as int) + Seq::<
                char,
            >::empty() =~= result@.subrange(acc0.len() as int, result@.len() as int));
        }
        let ghost body = result@.subrange(acc0.len() as int, result@.len() as int);
        result.append("</ul>");
        if is_root {
            result.append("</ul>");
        }
        proof {
            reveal_strlit("</ul>");
            if is_root {
                assert(result@ =~= "<ul>"@ + head + body + "</ul>"@ + "</ul>"@);
            } else {
                assert(result@ =~= "<ul>"@ + head + body + "</ul>"@ + Seq::<char>::empty());
            }
        }
        Ok(result)
    }
}

} // verus!
