//! Paragraph injection: the evaluated page body gets `<p>` openers after
//! blank lines, except inside `<pre>` blocks and directly before
//! block-level tags, where the opener would be invalid HTML.

use vstd::prelude::*;
use crate::strutil::{chars_range_to_string, str_chars};

verus! {

/// The number of consecutive lowercase-alphanumeric characters of `s`
/// starting at `i`.
pub open spec fn spec_alnum_run(s: Seq<char>, i: int) -> int
    decreases s.len() - i,
{
    if 0 <= i < s.len() && spec_is_tag_char(s[i]) {
        1 + spec_alnum_run(s, i + 1)
    } else {
        0
    }
}

/// A character that may appear in a recognized tag name.
pub open spec fn spec_is_tag_char(c: char) -> bool {
    ('a' <= c && c <= 'z') || ('0' <= c && c <= '9')
}

/// The number of consecutive ordinary text characters (neither a newline
/// nor `<`) of `s` starting at `i`.
pub open spec fn spec_text_run(s: Seq<char>, i: int) -> int
    decreases s.len() - i,
{
    if 0 <= i < s.len() && s[i] != '\n' && s[i] != '<' {
        1 + spec_text_run(s, i + 1)
    } else {
        0
    }
}

/// Whether `name` is a block-level tag, before which no `<p>` belongs.
pub open spec fn spec_is_block_tag(name: Seq<char>) -> bool {
    ||| name == "address"@
    ||| name == "article"@
    ||| name == "aside"@
    ||| name == "blockquote"@
    ||| name == "details"@
    ||| name == "div"@
    ||| name == "dl"@
    ||| name == "fieldset"@
    ||| name == "figcaption"@
    ||| name == "figure"@
    ||| name == "footer"@
    ||| name == "form"@
    ||| name == "h1"@
    ||| name == "h2"@
    ||| name == "h3"@
    ||| name == "h4"@
    ||| name == "h5"@
    ||| name == "h6"@
    ||| name == "header"@
    ||| name == "hgroup"@
    ||| name == "hr"@
    ||| name == "main"@
    ||| name == "menu"@
    ||| name == "nav"@
    ||| name == "ol"@
    ||| name == "p"@
    ||| name == "pre"@
    ||| name == "section"@
    ||| name == "table"@
    ||| name == "ul"@
}

/// The output so far ends with a `<p>` opener that a block tag or a fresh
/// paragraph break would supersede.
pub open spec fn spec_ends_p(acc: Seq<char>) -> bool {
    acc.len() >= 3 && acc[acc.len() - 3] == '<' && acc[acc.len() - 2] == 'p' && acc[acc.len()
        - 1] == '>'
}

/// The paragraph-injection transform, one scan token at a time: a blank
/// line outside `<pre>` becomes a paragraph break with a `<p>` opener
/// (replacing one it would immediately follow); a block-level tag
/// retracts a directly preceding opener; everything else passes through.
/// A `<` that begins no recognizable tag is consumed silently, as the
/// scanner's token grammar skips it.
pub open spec fn spec_inject(s: Seq<char>, pre: int, acc: Seq<char>) -> Seq<char>
    decreases s.len(),
{
    if s.len() == 0 {
        acc
    } else if s[0] == '\n' && s.len() >= 2 && s[1] == '\n' {
        if pre == 0 {
            let acc2 = if spec_ends_p(acc) {
                acc.take(acc.len() - 3)
            } else {
                acc
            };
            spec_inject(s.skip(2), pre, acc2 + seq!['\n', '\n', '<', 'p', '>'])
        } else {
            spec_inject(s.skip(2), pre, acc + seq!['\n', '\n'])
        }
    } else if s[0] == '\n' {
        spec_inject(s.skip(1), pre, acc.push('\n'))
    } else if s[0] == '<' {
        let closing = s.len() >= 2 && s[1] == '/';
        let start: int = if closing {
            2
        } else {
            1
        };
        let nl = spec_alnum_run(s, start);
        if nl < 1 {
            spec_inject(s.skip(1), pre, acc)
        } else {
            let name = s.subrange(start, start + nl);
            let token = s.subrange(0, start + nl);
            let pre2: int = if name == "pre"@ {
                if !closing && pre == 0 {
                    pre + 1
                } else if closing && pre > 0 {
                    pre - 1
                } else {
                    pre
                }
            } else {
                pre
            };
            let acc2 = if spec_is_block_tag(name) && spec_ends_p(acc) {
                acc.take(acc.len() - 3)
            } else {
                acc
            };
            if start + nl <= s.len() {
                spec_inject(s.skip(start + nl), pre2, acc2 + token)
            } else {
                acc2 + token
            }
        }
    } else {
        let rl = spec_text_run(s, 0);
        if 1 <= rl <= s.len() {
            spec_inject(s.skip(rl), pre, acc + s.subrange(0, rl))
        } else {
            acc
        }
    }
}

/// Append `v[from..to]` to `acc`.
fn push_range(acc: &mut Vec<char>, v: &Vec<char>, from: usize, to: usize)
    requires
        from <= to <= v@.len(),
    ensures
        final(acc)@ == old(acc)@ + v@.subrange(from as int, to as int),
{
    let mut k: usize = from;
    while k < to
        invariant
            from <= k <= to <= v@.len(),
            acc@ == old(acc)@ + v@.subrange(from as int, k as int),
        decreases to - k,
    {
        acc.push(v[k]);
        proof {
            assert(old(acc)@ + v@.subrange(from as int, k as int) + seq![v@[k as int]] =~= old(
                acc,
            )@ + v@.subrange(from as int, k + 1int));
        }
        k += 1;
    }
    proof {
        if from == to {
            assert(acc@ =~= old(acc)@ + v@.subrange(from as int, to as int));
        }
    }
}

fn is_tag_char(c: char) -> (r: bool)
    ensures
        r == spec_is_tag_char(c),
{
    ('a' <= c && c <= 'z') || ('0' <= c && c <= '9')
}

fn is_block_tag(name: &Vec<char>) -> (r: bool)
    ensures
        r == spec_is_block_tag(name@),
{
    let s = chars_range_to_string(name, 0, name.len());
    proof {
        assert(s@ =~= name@);
    }
    let s = s.as_str();
    str_eq(s, "address") || str_eq(s, "article") || str_eq(s, "aside") || str_eq(
        s,
        "blockquote",
    ) || str_eq(s, "details") || str_eq(s, "div") || str_eq(s, "dl") || str_eq(s, "fieldset")
        || str_eq(s, "figcaption") || str_eq(s, "figure") || str_eq(s, "footer") || str_eq(
        s,
        "form",
    ) || str_eq(s, "h1") || str_eq(s, "h2") || str_eq(s, "h3") || str_eq(s, "h4") || str_eq(
        s,
        "h5",
    ) || str_eq(s, "h6") || str_eq(s, "header") || str_eq(s, "hgroup") || str_eq(s, "hr")
        || str_eq(s, "main") || str_eq(s, "menu") || str_eq(s, "nav") || str_eq(s, "ol")
        || str_eq(s, "p") || str_eq(s, "pre") || str_eq(s, "section") || str_eq(s, "table")
        || str_eq(s, "ul")
}

/// Whether two strings hold the same characters.
fn str_eq(a: &str, b: &str) -> (r: bool)
    ensures
        r == (a@ == b@),
{
    let a_owned: String = a.to_owned();
    let b_owned: String = b.to_owned();
    a_owned == b_owned
}

/// Inject paragraph openers into the evaluated body, per [`spec_inject`].
pub fn inject_paragraphs(text: &str) -> (r: String)
    ensures
        r@ == spec_inject(text@, 0, Seq::<char>::empty()),
{
    let v = str_chars(text);
    let n = v.len();
    let mut acc: Vec<char> = Vec::new();
    let mut pre: i32 = 0;
    let mut i: usize = 0;
    proof {
        assert(v@.skip(0) =~= v@);
    }
    while i < n
        invariant
            0 <= i <= n,
            n == v@.len(),
            v@ == text@,
            0 <= pre,
            spec_inject(text@, 0, Seq::<char>::empty()) == spec_inject(
                v@.skip(i as int),
                pre as int,
                acc@,
            ),
        decreases n - i,
    {
        let ghost rest = v@.skip(i as int);
        proof {
            assert(rest[0] == v@[i as int]);
        }
        let c = v[i];
        if c == '\n' && i + 1 < n && v[i + 1] == '\n' {
            proof {
                assert(rest[1] == v@[i + 1int]);
                assert(rest.skip(2) =~= v@.skip(i + 2int));
            }
            if pre == 0 {
                let ghost acc0 = acc@;
                let len = acc.len();
                if len >= 3 && acc[len - 3] == '<' && acc[len - 2] == 'p' && acc[len - 1] == '>' {
                    proof {
                        assert(spec_ends_p(acc@));
                    }
                    acc.truncate(len - 3);
                } else {
                    proof {
                        assert(!spec_ends_p(acc@));
                    }
                }
                let ghost acc2 = acc@;
                acc.push('\n');
                acc.push('\n');
                acc.push('<');
                acc.push('p');
                acc.push('>');
                proof {
                    assert(acc2 == if spec_ends_p(acc0) {
                        acc0.take(acc0.len() - 3)
                    } else {
                        acc0
                    });
                    assert(acc@ =~= acc2 + seq!['\n', '\n', '<', 'p', '>']);
                }
            } else {
                let ghost acc0 = acc@;
                acc.push('\n');
                acc.push('\n');
                proof {
                    assert(acc@ =~= acc0 + seq!['\n', '\n']);
                }
            }
            i += 2;
        } else if c == '\n' {
            acc.push('\n');
            proof {
                assert(rest.skip(1) =~= v@.skip(i + 1int));
            }
            i += 1;
        } else if c == '<' {
            let closing = i + 1 < n && v[i + 1] == '/';
            let start: usize = if closing {
                i + 2
            } else {
                i + 1
            };
            let mut j: usize = start;
            while j < n && is_tag_char(v[j])
                invariant
                    start <= j <= n,
                    n == v@.len(),
                    forall|m: int| start <= m < j ==> spec_is_tag_char(#[trigger] v@[m]),
                decreases n - j,
            {
                j += 1;
            }
            proof {
                assert forall|m: int|
                    (start - i) <= m < (j - i) implies spec_is_tag_char(#[trigger] rest[m]) by {
                    assert(rest[m] == v@[i + m]);
                }
                if j < n {
                    assert(!spec_is_tag_char(rest[j - i as int]));
                    lemma_alnum_run_in_range(rest, start - i as int, j - start as int);
                } else {
                    lemma_alnum_run_to_end(rest, start - i as int, j - start as int);
                }
                if closing {
                    assert(rest[1] == v@[i + 1int]);
                }
            }
            if j == start {
                proof {
                    assert(rest.skip(1) =~= v@.skip(i + 1int));
                }
                i += 1;
            } else {
                let mut name: Vec<char> = Vec::new();
                push_range(&mut name, &v, start, j);
                proof {
                    assert(name@ =~= rest.subrange(start - i as int, j - i as int));
                }
                let is_pre = {
                    let s = chars_range_to_string(&name, 0, name.len());
                    proof {
                        assert(s@ =~= name@);
                    }
                    str_eq(s.as_str(), "pre")
                };
                if is_pre {
                    if !closing && pre == 0 {
                        pre = pre + 1;
                    } else if closing && pre > 0 {
                        pre = pre - 1;
                    }
                }
                let block = is_block_tag(&name);
                let len = acc.len();
                if block && len >= 3 && acc[len - 3] == '<' && acc[len - 2] == 'p' && acc[len - 1]
                    == '>' {
                    proof {
                        assert(spec_ends_p(acc@));
                    }
                    acc.truncate(len - 3);
                } else {
                    proof {
                        if block {
                            assert(!spec_ends_p(acc@));
                        }
                    }
                }
                push_range(&mut acc, &v, i, j);
                proof {
                    assert(v@.subrange(i as int, j as int) =~= rest.subrange(0, j - i as int));
                    assert(rest.skip(j - i as int) =~= v@.skip(j as int));
                }
                i = j;
            }
        } else {
            let mut j: usize = i;
            while j < n && v[j] != '\n' && v[j] != '<'
                invariant
                    i <= j <= n,
                    n == v@.len(),
                    forall|m: int| i <= m < j ==> v@[m] != '\n' && v@[m] != '<',
                decreases n - j,
            {
                j += 1;
            }
            proof {
                assert forall|m: int| 0 <= m < (j - i) implies rest[m] != '\n' && rest[m]
                    != '<' by {
                    assert(rest[m] == v@[i + m]);
                }
                if j < n {
                    assert(rest[j - i as int] == v@[j as int]);
                    lemma_text_run_in_range(rest, 0, j - i as int);
                } else {
                    lemma_text_run_to_end(rest, 0, j - i as int);
                }
            }
            push_range(&mut acc, &v, i, j);
            proof {
                assert(v@.subrange(i as int, j as int) =~= rest.subrange(0, j - i as int));
                assert(rest.skip(j - i as int) =~= v@.skip(j as int));
            }
            i = j;
        }
    }
    proof {
        assert(v@.skip(n as int) =~= Seq::<char>::empty());
    }
    chars_range_to_string(&acc, 0, acc.len())
}

proof fn lemma_alnum_run_in_range(s: Seq<char>, i: int, rl: int)
    requires
        0 <= i,
        rl >= 0,
        i + rl < s.len(),
        forall|j: int| i <= j < i + rl ==> spec_is_tag_char(#[trigger] s[j]),
        !spec_is_tag_char(s[i + rl]),
    ensures
        spec_alnum_run(s, i) == rl,
    decreases rl,
{
    if rl > 0 {
        lemma_alnum_run_in_range(s, i + 1, rl - 1);
    }
}

proof fn lemma_alnum_run_to_end(s: Seq<char>, i: int, rl: int)
    requires
        0 <= i,
        rl >= 0,
        i + rl == s.len(),
        forall|j: int| i <= j < i + rl ==> spec_is_tag_char(#[trigger] s[j]),
    ensures
        spec_alnum_run(s, i) == rl,
    decreases rl,
{
    if rl > 0 {
        lemma_alnum_run_to_end(s, i + 1, rl - 1);
    }
}

proof fn lemma_text_run_in_range(s: Seq<char>, i: int, rl: int)
    requires
        0 <= i,
        rl >= 0,
        i + rl < s.len(),
        forall|j: int| i <= j < i + rl ==> #[trigger] s[j] != '\n' && s[j] != '<',
        s[i + rl] == '\n' || s[i + rl] == '<',
    ensures
        spec_text_run(s, i) == rl,
    decreases rl,
{
    if rl > 0 {
        lemma_text_run_in_range(s, i + 1, rl - 1);
    }
}

proof fn lemma_text_run_to_end(s: Seq<char>, i: int, rl: int)
    requires
        0 <= i,
        rl >= 0,
        i + rl == s.len(),
        forall|j: int| i <= j < i + rl ==> #[trigger] s[j] != '\n' && s[j] != '<',
    ensures
        spec_text_run(s, i) == rl,
    decreases rl,
{
    if rl > 0 {
        lemma_text_run_to_end(s, i + 1, rl - 1);
    }
}

} // verus!
