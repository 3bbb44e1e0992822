//! Logical page identity: the [`Slug`] (a normalized page path without
//! extension) and the [`Page`] record that the build phase produces and the
//! link phase consumes.

use vstd::prelude::*;
use crate::strutil::push_char;

verus! {

/// How many times `c` occurs in `s`.
pub open spec fn spec_count_char(s: Seq<char>, c: char) -> nat
    decreases s.len(),
{
    if s.len() == 0 {
        0
    } else {
        spec_count_char(s.drop_last(), c) + if s.last() == c {
            1nat
        } else {
            0nat
        }
    }
}

/// `"../"` repeated `n` times.
pub open spec fn spec_updirs(n: nat) -> Seq<char>
    decreases n,
{
    if n == 0 {
        Seq::<char>::empty()
    } else {
        spec_updirs((n - 1) as nat) + seq!['.', '.', '/']
    }
}

/// The position of the last occurrence of `c` in `s`, if any.
pub open spec fn spec_rfind(s: Seq<char>, c: char) -> Option<int>
    decreases s.len(),
{
    if s.len() == 0 {
        None
    } else if s.last() == c {
        Some(s.len() - 1)
    } else {
        spec_rfind(s.drop_last(), c)
    }
}

/// `path` with its extension replaced by `html`: inside the final
/// path component, everything from the last `.` on is dropped (a `.` that
/// begins the component does not count), and `.html` is appended.
pub open spec fn spec_with_html_ext(path: Seq<char>) -> Seq<char> {
    let comp_start = match spec_rfind(path, '/') {
        Some(i) => i + 1,
        None => 0,
    };
    let comp = path.subrange(comp_start, path.len() as int);
    let stem_end = match spec_rfind(comp, '.') {
        Some(j) => if j > 0 {
            comp_start + j
        } else {
            path.len() as int
        },
        None => path.len() as int,
    };
    path.subrange(0, stem_end) + seq!['.', 'h', 't', 'm', 'l']
}

/// A normalized logical page path, without extension, using `/` separators.
/// Every hyperlink the build emits is derived from a pair of slugs.
#[derive(Debug)]
pub struct Slug {
    slug: String,
}

impl Clone for Slug {
    fn clone(&self) -> (r: Slug)
        ensures
            r@ == self@,
    {
        Slug { slug: self.slug.clone() }
    }
}

impl View for Slug {
    type V = Seq<char>;

    closed spec fn view(&self) -> Seq<char> {
        self.slug@
    }
}

impl PartialEq for Slug {
    fn eq(&self, other: &Slug) -> (r: bool)
        ensures
            r == (self@ == other@),
    {
        self.slug == other.slug
    }
}

impl vstd::std_specs::cmp::PartialEqSpecImpl for Slug {
    open spec fn obeys_eq_spec() -> bool {
        true
    }

    open spec fn eq_spec(&self, other: &Slug) -> bool {
        self@ == other@
    }
}

impl Slug {
    pub fn new(slug: String) -> (s: Slug)
        ensures
            s@ == slug@,
    {
        Slug { slug }
    }

    /// The slug's text.
    pub fn as_str(&self) -> (r: &str)
        ensures
            r@ == self@,
    {
        self.slug.as_str()
    }

    /// How many directory levels deep this page's output file sits:
    /// the number of `/` separators, plus one in pretty-URL mode, where
    /// every page but `index` becomes a directory of its own.
    pub fn depth(&self, pretty_url: bool) -> (d: usize)
        requires
            self@.len() < usize::MAX,
        ensures
            d == spec_count_char(self@, '/') + if pretty_url && self@ != "index"@ {
                1int
            } else {
                0int
            },
    {
        let s = self.slug.as_str();
        let n = s.unicode_len();
        let mut count: usize = 0;
        let mut i: usize = 0;
        while i < n
            invariant
                0 <= i <= n,
                n == s@.len(),
                count == spec_count_char(s@.subrange(0, i as int), '/'),
                count <= i,
            decreases n - i,
        {
            proof {
                assert(s@.subrange(0, i + 1int).drop_last() =~= s@.subrange(0, i as int));
            }
            if s.get_char(i) == '/' {
                count += 1;
            }
            i += 1;
        }
        proof {
            assert(s@.subrange(0, n as int) =~= s@);
        }
        let modifier: usize = if pretty_url && !str_eq_index(s) {
            1
        } else {
            0
        };
        proof {
            lemma_count_char_le_len(s@, '/');
        }
        count + modifier
    }

    /// The relative path from this page's output file to `dest`:
    /// one `../` per directory level, then `dest` itself.
    pub fn path_to(&self, dest: &str, pretty_url: bool) -> (r: String)
        ensures
            r@ == spec_updirs(
                spec_count_char(self@, '/') + if pretty_url && self@ != "index"@ {
                    1nat
                } else {
                    0nat
                },
            ) + dest@,
    {
        let s = self.slug.as_str();
        let n = s.unicode_len();
        let mut r = String::new();
        let mut i: usize = 0;
        while i < n
            invariant
                0 <= i <= n,
                n == s@.len(),
                s@ == self@,
                r@ == spec_updirs(spec_count_char(s@.subrange(0, i as int), '/')),
            decreases n - i,
        {
            proof {
                assert(s@.subrange(0, i + 1int).drop_last() =~= s@.subrange(0, i as int));
                reveal_strlit("../");
            }
            if s.get_char(i) == '/' {
                r.append("../");
            }
            i += 1;
        }
        proof {
            assert(s@.subrange(0, n as int) =~= s@);
        }
        if pretty_url && !str_eq_index(s) {
            proof {
                reveal_strlit("../");
            }
            r.append("../");
        }
        r.append(dest);
        r
    }

    /// The output file for this slug under `prefix`: `prefix/slug.html`,
    /// or `prefix/slug/index.html` in pretty-URL mode (except for `index`
    /// itself); an existing extension in the final component is replaced.
    pub fn create_output_path(&self, prefix: &str, pretty_url: bool) -> (r: String)
        ensures
            r@ == if pretty_url && self@ != "index"@ {
                prefix@ + seq!['/'] + self@ + "/index.html"@
            } else {
                spec_with_html_ext(prefix@ + seq!['/'] + self@)
            },
    {
        let mut joined = String::new();
        joined.append(prefix);
        push_char(&mut joined, '/');
        joined.append(self.slug.as_str());
        proof {
            assert(joined@ =~= prefix@ + seq!['/'] + self@);
        }
        if pretty_url && !str_eq_index(self.slug.as_str()) {
            joined.append("/index.html");
            proof {
                reveal_strlit("/index.html");
                assert(joined@ =~= prefix@ + seq!['/'] + self@ + "/index.html"@);
            }
            joined
        } else {
            with_html_ext(&joined)
        }
    }
}

/// Whether `s` is exactly `index`.
fn str_eq_index(s: &str) -> (r: bool)
    ensures
        r == (s@ == "index"@),
{
    let owned: String = s.to_owned();
    let index: String = String::from_str("index");
    owned == index
}

proof fn lemma_count_char_le_len(s: Seq<char>, c: char)
    ensures
        spec_count_char(s, c) <= s.len(),
    decreases s.len(),
{
    if s.len() > 0 {
        lemma_count_char_le_len(s.drop_last(), c);
    }
}

/// The position of the last `c` in `s`, or `None`.
pub fn rfind_str(s: &str, c: char) -> (r: Option<usize>)
    ensures
        match r {
            Some(i) => (i as int) < s@.len() && spec_rfind(s@, c) == Some(i as int),
            None => spec_rfind(s@, c) is None,
        },
{
    let n = s.unicode_len();
    proof {
        assert(s@.subrange(0, n as int) =~= s@);
    }
    rfind_before(s, n, c)
}

/// The position just past the last `c` in `s[0..n]`, or `None`.
fn rfind_before(s: &str, n: usize, c: char) -> (r: Option<usize>)
    requires
        n <= s@.len(),
    ensures
        match r {
            Some(i) => i < n && spec_rfind(s@.subrange(0, n as int), c) == Some(i as int),
            None => spec_rfind(s@.subrange(0, n as int), c) is None,
        },
{
    let mut i: usize = n;
    while i > 0
        invariant
            0 <= i <= n <= s@.len(),
            spec_rfind(s@.subrange(0, n as int), c) == spec_rfind(s@.subrange(0, i as int), c),
        decreases i,
    {
        proof {
            assert(s@.subrange(0, i as int).drop_last() =~= s@.subrange(0, i - 1int));
            assert(s@.subrange(0, i as int).last() == s@[i - 1int]);
        }
        if s.get_char(i - 1) == c {
            return Some(i - 1);
        }
        i -= 1;
    }
    proof {
        assert(s@.subrange(0, 0int) =~= Seq::<char>::empty());
    }
    None
}

/// `path` with its extension replaced by `html`, per [`spec_with_html_ext`].
fn with_html_ext(path: &String) -> (r: String)
    ensures
        r@ == spec_with_html_ext(path@),
{
    let s = path.as_str();
    let n = s.unicode_len();
    let comp_start: usize = match rfind_before(s, n, '/') {
        Some(i) => i + 1,
        None => 0,
    };
    proof {
        assert(s@.subrange(0, n as int) =~= s@);
    }
    let comp = s.substring_char(comp_start, n);
    let comp_len = n - comp_start;
    proof {
        assert(comp@.subrange(0, comp_len as int) =~= comp@);
    }
    let stem_end: usize = match rfind_before(comp, comp_len, '.') {
        Some(j) => if j > 0 {
            comp_start + j
        } else {
            n
        },
        None => n,
    };
    let mut r = s.substring_char(0, stem_end).to_owned();
    r.append(".html");
    proof {
        reveal_strlit(".html");
        assert(r@ =~= spec_with_html_ext(path@));
    }
    r
}

/// One page of the project: produced by the build phase, consumed once by
/// the link phase. `body` may contain reference placeholders; the link
/// phase resolves them into a fresh string.
pub struct Page {
    /// The source file this page came from, as given to the parser.
    pub source_path: String,
    /// The page's logical identity.
    pub slug: Slug,
    /// Evaluated page body, possibly holding reference placeholders.
    pub body: String,
    /// Key/value pairs the page's markup set aside for the theme,
    /// such as the extracted title.
    pub theme_config: Vec<(String, String)>,
}

/// The value bound to `key` in `pairs`, taking the latest binding.
pub open spec fn spec_pairs_get(pairs: Seq<(Seq<char>, Seq<char>)>, key: Seq<char>) -> Option<
    Seq<char>,
>
    decreases pairs.len(),
{
    if pairs.len() == 0 {
        None
    } else if pairs.last().0 == key {
        Some(pairs.last().1)
    } else {
        spec_pairs_get(pairs.drop_last(), key)
    }
}

/// The view of a `Vec<(String, String)>` as pairs of character sequences.
pub open spec fn spec_pairs_view(pairs: Seq<(String, String)>) -> Seq<(Seq<char>, Seq<char>)> {
    pairs.map_values(|p: (String, String)| (p.0@, p.1@))
}

/// The value bound to `key`, taking the latest binding.
pub fn pairs_get<'a>(pairs: &'a Vec<(String, String)>, key: &str) -> (r: Option<&'a String>)
    ensures
        match r {
            Some(v) => spec_pairs_get(spec_pairs_view(pairs@), key@) == Some(v@),
            None => spec_pairs_get(spec_pairs_view(pairs@), key@) is None,
        },
{
    let key_owned: String = key.to_owned();
    let n = pairs.len();
    proof {
        assert(spec_pairs_view(pairs@).subrange(0, n as int) =~= spec_pairs_view(pairs@));
    }
    let mut i: usize = n;
    while i > 0
        invariant
            0 <= i <= n,
            n == pairs@.len(),
            key_owned@ == key@,
            spec_pairs_get(spec_pairs_view(pairs@), key@) == spec_pairs_get(
                spec_pairs_view(pairs@).subrange(0, i as int),
                key@,
            ),
        decreases i,
    {
        proof {
            assert(spec_pairs_view(pairs@).subrange(0, i as int).drop_last() =~= spec_pairs_view(
                pairs@,
            ).subrange(0, i - 1int));
            assert(spec_pairs_view(pairs@).subrange(0, i as int).last() == (
                pairs@[i - 1int].0@,
                pairs@[i - 1int].1@,
            ));
        }
        if pairs[i - 1].0 == key_owned {
            return Some(&pairs[i - 1].1);
        }
        i -= 1;
    }
    proof {
        assert(spec_pairs_view(pairs@).subrange(0, 0int) =~= Seq::<
            (Seq<char>, Seq<char>),
        >::empty());
    }
    None
}

impl Page {
    /// The page's title for `<title>` generation: the `title` entry of
    /// `theme_config`, or `Untitled` when none was recorded.
    pub fn title(&self) -> (r: String)
        ensures
            r@ == match spec_pairs_get(spec_pairs_view(self.theme_config@), "title"@) {
                Some(t) => t,
                None => "Untitled"@,
            },
    {
        match pairs_get(&self.theme_config, "title") {
            Some(t) => t.clone(),
            None => String::from_str("Untitled"),
        }
    }
}

} // verus!
