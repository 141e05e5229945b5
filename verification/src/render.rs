//! Link recognition and display rendering for passage content.
//!
//! A link token is a bracketed span `[[Label->Target]]`, or `[[Target]]` as
//! shorthand for a link whose label equals its target. Rendering exposes only
//! the label of each link (the brackets stay, the target is hidden) and then
//! substitutes the emphasis digraphs: `''` becomes `**` (bold) and `//`
//! becomes `*` (italics). Link substitution runs first so that a `//` or `''`
//! hidden inside a raw target is never mistaken for emphasis.

use vstd::prelude::*;

use crate::text::{
    chars_of, find2, find2_exec, lemma_find2_props, push_range, replace2, replace2_exec,
    string_of, sub_chars,
};

verus! {

/// Mathematical model of a link: its visible label and its target passage name.
pub struct LinkModel {
    pub label: Seq<char>,
    pub target: Seq<char>,
}

/// A choice link extracted from passage content.
pub struct Link {
    pub label: String,
    pub target: String,
}

impl View for Link {
    type V = LinkModel;

    open spec fn view(&self) -> LinkModel {
        LinkModel { label: self.label@, target: self.target@ }
    }
}

impl DeepView for Link {
    type V = LinkModel;

    open spec fn deep_view(&self) -> LinkModel {
        self@
    }
}

/// The link denoted by the text between `[[` and `]]`: split at the first
/// `->` into label and target, or the whole text as both when there is none.
pub open spec fn link_of(inner: Seq<char>) -> LinkModel {
    match find2(inner, '-', '>', 0) {
        Some(i) => LinkModel { label: inner.take(i as int), target: inner.skip(i as int + 2) },
        None => LinkModel { label: inner, target: inner },
    }
}

/// All links of `s` at or after `from`, in order of first appearance.
/// Duplicates are preserved. An unclosed `[[` ends the scan.
pub open spec fn links_from(s: Seq<char>, from: nat) -> Seq<LinkModel>
    decreases s.len() - from
        via links_from_decreases
{
    match find2(s, '[', '[', from) {
        None => seq![],
        Some(i) => match find2(s, ']', ']', (i + 2) as nat) {
            None => seq![],
            Some(j) => seq![link_of(s.subrange(i as int + 2, j as int))] + links_from(s, (j + 2) as nat),
        },
    }
}

#[via_fn]
proof fn links_from_decreases(s: Seq<char>, from: nat) {
    lemma_find2_props(s, '[', '[', from);
    match find2(s, '[', '[', from) {
        Some(i) => {
            lemma_find2_props(s, ']', ']', (i + 2) as nat);
        },
        None => {},
    }
}

/// Every `[[` opener at or after `from` has a matching `]]` closer.
pub open spec fn brackets_closed_from(s: Seq<char>, from: nat) -> bool
    decreases s.len() - from
        via brackets_closed_decreases
{
    match find2(s, '[', '[', from) {
        None => true,
        Some(i) => match find2(s, ']', ']', (i + 2) as nat) {
            None => false,
            Some(j) => brackets_closed_from(s, (j + 2) as nat),
        },
    }
}

#[via_fn]
proof fn brackets_closed_decreases(s: Seq<char>, from: nat) {
    lemma_find2_props(s, '[', '[', from);
    match find2(s, '[', '[', from) {
        Some(i) => {
            lemma_find2_props(s, ']', ']', (i + 2) as nat);
        },
        None => {},
    }
}

/// `s` from `from` on, with every link token replaced by `[[Label]]`: the
/// target of a labeled link is hidden, a shorthand token is left as it is.
pub open spec fn strip_targets(s: Seq<char>, from: nat) -> Seq<char>
    decreases s.len() - from
        via strip_targets_decreases
{
    match find2(s, '[', '[', from) {
        None => s.skip(from as int),
        Some(i) => match find2(s, ']', ']', (i + 2) as nat) {
            None => s.skip(from as int),
            Some(j) => s.subrange(from as int, i as int) + seq!['[', '['] + link_of(
                s.subrange(i as int + 2, j as int),
            ).label + seq![']', ']'] + strip_targets(s, (j + 2) as nat),
        },
    }
}

#[via_fn]
proof fn strip_targets_decreases(s: Seq<char>, from: nat) {
    lemma_find2_props(s, '[', '[', from);
    match find2(s, '[', '[', from) {
        Some(i) => {
            lemma_find2_props(s, ']', ']', (i + 2) as nat);
        },
        None => {},
    }
}

/// The display text of content `s`: targets hidden, then `''` replaced by
/// `**`, then `//` replaced by `*`.
pub open spec fn display_of(s: Seq<char>) -> Seq<char> {
    replace2(
        replace2(strip_targets(s, 0), '\'', '\'', seq!['*', '*'], 0),
        '/',
        '/',
        seq!['*'],
        0,
    )
}

/// The visible label of the link text `inner`, as characters.
fn label_chars(inner: &Vec<char>) -> (r: Vec<char>)
    ensures
        r@ == link_of(inner@).label,
{
    match find2_exec(inner, '-', '>', 0) {
        Some(i) => {
            proof {
                lemma_find2_props(inner@, '-', '>', 0);
                assert(inner@.take(i as int) =~= inner@.subrange(0, i as int));
            }
            sub_chars(inner, 0, i)
        },
        None => {
            let mut r: Vec<char> = Vec::new();
            push_range(&mut r, inner, 0, inner.len());
            proof {
                assert(r@ =~= inner@);
            }
            r
        },
    }
}

/// The link denoted by the text between `[[` and `]]`.
pub fn link_of_exec(inner: &Vec<char>) -> (r: Link)
    ensures
        r@ == link_of(inner@),
{
    let n = inner.len();
    match find2_exec(inner, '-', '>', 0) {
        Some(i) => {
            proof {
                lemma_find2_props(inner@, '-', '>', 0);
                assert(i + 2 <= n);
                assert(inner@.take(i as int) =~= inner@.subrange(0, i as int));
                assert(inner@.skip(i + 2) =~= inner@.subrange(i + 2, inner@.len() as int));
            }
            let label = string_of(&sub_chars(inner, 0, i));
            let target = string_of(&sub_chars(inner, i + 2, n));
            Link { label, target }
        },
        None => {
            let s = string_of(inner);
            let t = s.clone();
            Link { label: s, target: t }
        },
    }
}

/// All links of `v`, in order of first appearance.
pub fn links_of_chars(v: &Vec<char>) -> (r: Vec<Link>)
    ensures
        r.deep_view() == links_from(v@, 0),
{
    let mut out: Vec<Link> = Vec::new();
    let mut pos: usize = 0;
    loop
        invariant
            pos <= v@.len(),
            links_from(v@, 0) == out.deep_view() + links_from(v@, pos as nat),
        decreases v@.len() - pos,
    {
        let n = v.len();
        match find2_exec(v, '[', '[', pos) {
            None => {
                proof {
                    assert(out.deep_view() =~= links_from(v@, 0));
                }
                return out;
            },
            Some(i) => {
                proof {
                    lemma_find2_props(v@, '[', '[', pos as nat);
                    assert(pos <= i && i + 2 <= n);
                }
                match find2_exec(v, ']', ']', i + 2) {
                    None => {
                        proof {
                            assert(out.deep_view() =~= links_from(v@, 0));
                        }
                        return out;
                    },
                    Some(j) => {
                        proof {
                            lemma_find2_props(v@, ']', ']', (i + 2) as nat);
                            assert(i + 2 <= j && j + 2 <= n);
                        }
                        let inner = sub_chars(v, i + 2, j);
                        let link = link_of_exec(&inner);
                        let ghost mid = out.deep_view();
                        out.push(link);
                        proof {
                            assert(out.deep_view() =~= mid + seq![link_of(v@.subrange(i + 2, j as int))]);
                            assert(out.deep_view() + links_from(v@, (j + 2) as nat) =~= mid
                                + links_from(v@, pos as nat));
                        }
                        pos = j + 2;
                    },
                }
            },
        }
    }
}

/// Whether every `[[` opener in `v` has a matching `]]` closer.
pub fn brackets_closed_exec(v: &Vec<char>) -> (r: bool)
    ensures
        r == brackets_closed_from(v@, 0),
{
    let mut pos: usize = 0;
    loop
        invariant
            pos <= v@.len(),
            brackets_closed_from(v@, 0) == brackets_closed_from(v@, pos as nat),
        decreases v@.len() - pos,
    {
        let n = v.len();
        match find2_exec(v, '[', '[', pos) {
            None => {
                return true;
            },
            Some(i) => {
                proof {
                    lemma_find2_props(v@, '[', '[', pos as nat);
                    assert(pos <= i && i + 2 <= n);
                }
                match find2_exec(v, ']', ']', i + 2) {
                    None => {
                        return false;
                    },
                    Some(j) => {
                        proof {
                            lemma_find2_props(v@, ']', ']', (i + 2) as nat);
                            assert(i + 2 <= j && j + 2 <= n);
                        }
                        pos = j + 2;
                    },
                }
            },
        }
    }
}

/// `v` with every link token replaced by `[[Label]]`.
fn strip_targets_exec(v: &Vec<char>) -> (r: Vec<char>)
    ensures
        r@ == strip_targets(v@, 0),
{
    let mut out: Vec<char> = Vec::new();
    let mut pos: usize = 0;
    loop
        invariant
            pos <= v@.len(),
            strip_targets(v@, 0) == out@ + strip_targets(v@, pos as nat),
        decreases v@.len() - pos,
    {
        let n = v.len();
        match find2_exec(v, '[', '[', pos) {
            None => {
                push_range(&mut out, v, pos, n);
                proof {
                    assert(v@.subrange(pos as int, n as int) =~= v@.skip(pos as int));
                    assert(out@ =~= strip_targets(v@, 0));
                }
                return out;
            },
            Some(i) => {
                proof {
                    lemma_find2_props(v@, '[', '[', pos as nat);
                    assert(pos <= i && i + 2 <= n);
                }
                match find2_exec(v, ']', ']', i + 2) {
                    None => {
                        push_range(&mut out, v, pos, n);
                        proof {
                            assert(v@.subrange(pos as int, n as int) =~= v@.skip(pos as int));
                            assert(out@ =~= strip_targets(v@, 0));
                        }
                        return out;
                    },
                    Some(j) => {
                        proof {
                            lemma_find2_props(v@, ']', ']', (i + 2) as nat);
                            assert(i + 2 <= j && j + 2 <= n);
                        }
                        let ghost mid = out@;
                        push_range(&mut out, v, pos, i);
                        out.push('[');
                        out.push('[');
                        let inner = sub_chars(v, i + 2, j);
                        let label = label_chars(&inner);
                        push_range(&mut out, &label, 0, label.len());
                        out.push(']');
                        out.push(']');
                        proof {
                            assert(label@.subrange(0, label@.len() as int) =~= label@);
                            assert(out@ =~= mid + v@.subrange(pos as int, i as int) + seq!['[', '[']
                                + link_of(v@.subrange(i + 2, j as int)).label + seq![']', ']']);
                            assert(out@ + strip_targets(v@, (j + 2) as nat) =~= mid + strip_targets(
                                v@,
                                pos as nat,
                            ));
                        }
                        pos = j + 2;
                    },
                }
            },
        }
    }
}

/// The display text of a passage: link targets hidden, emphasis digraphs
/// substituted.
pub fn format_passage(passage: &crate::story::Passage) -> (text: String)
    ensures
        text@ == display_of(passage@.content),
{
    let content = chars_of(passage.raw_content.as_str());
    let display = display_of_chars(&content);
    string_of(&display)
}

/// The links of a passage, in order of first appearance.
pub fn get_passage_links(passage: &crate::story::Passage) -> (links: Vec<Link>)
    ensures
        links.deep_view() == links_from(passage@.content, 0),
{
    let content = chars_of(passage.raw_content.as_str());
    links_of_chars(&content)
}

/// Renders a passage: its display text together with its ordered links.
pub fn render(passage: &crate::story::Passage) -> (r: (String, Vec<Link>))
    ensures
        r.0@ == display_of(passage@.content),
        r.1.deep_view() == links_from(passage@.content, 0),
{
    (format_passage(passage), get_passage_links(passage))
}

/// The display text of the characters `v`.
pub fn display_of_chars(v: &Vec<char>) -> (r: Vec<char>)
    ensures
        r@ == display_of(v@),
{
    let stripped = strip_targets_exec(v);
    let mut bold: Vec<char> = Vec::new();
    bold.push('*');
    bold.push('*');
    let mut italic: Vec<char> = Vec::new();
    italic.push('*');
    proof {
        assert(bold@ =~= seq!['*', '*']);
        assert(italic@ =~= seq!['*']);
    }
    let b = replace2_exec(&stripped, '\'', '\'', &bold);
    replace2_exec(&b, '/', '/', &italic)
}

} // verus!
