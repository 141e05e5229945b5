//! Story parsing: raw markup to an immutable graph of named passages.
//!
//! A passage starts at a header line `:: Name` (surrounding spaces of the
//! name are ignored); its content is every line up to the next header,
//! joined with newlines. Parsing is strict: text before the first header,
//! an empty passage name, a duplicate passage name or an unclosed `[[`
//! fails with `MalformedStory`, and a story without a passage named
//! `Start` fails with `NoStartPassage`. Parsing is deterministic and
//! side-effect-free: the result is a function of the input text alone.

use vstd::prelude::*;
use vstd::string::StringExecFns;

use crate::render::brackets_closed_exec;
use crate::render::brackets_closed_from;
use crate::text::{
    chars_of, find1, find1_exec, lemma_find1_props, push_range, str_eq, string_of, sub_chars,
};

verus! {

broadcast use crate::text::lemma_vec_char_deep_view;

/// The error taxonomy of the engine.
///
/// A timeout is not an error: it is a normal terminal outcome of a session.
#[derive(Clone, Copy, Debug, PartialEq, Eq, Structural)]
pub enum EngineError {
    /// The markup cannot be split into passages, or a structural warning
    /// (empty or duplicate passage name, unclosed link bracket, text before
    /// the first header) was escalated to a hard failure.
    MalformedStory,
    /// No passage is designated, by convention of its name, as the entry point.
    NoStartPassage,
    /// A selected or resumed passage name does not resolve in the graph.
    MissingPassage,
    /// An external event of a kind the protocol cannot produce was handed in.
    InternalInvariant,
}

/// Mathematical model of a passage: its name and its raw content.
pub struct PassageModel {
    pub name: Seq<char>,
    pub content: Seq<char>,
}

/// A named unit of story content with embedded choice links.
pub struct Passage {
    pub name: String,
    pub raw_content: String,
}

impl View for Passage {
    type V = PassageModel;

    open spec fn view(&self) -> PassageModel {
        PassageModel { name: self.name@, content: self.raw_content@ }
    }
}

impl DeepView for Passage {
    type V = PassageModel;

    open spec fn deep_view(&self) -> PassageModel {
        self@
    }
}

/// Mathematical model of a story: its passages in order of appearance and
/// the name of its entry passage.
pub struct StoryModel {
    pub passages: Seq<PassageModel>,
    pub start: Option<Seq<char>>,
}

/// An immutable story graph. Once parsed it is read-only and safe to share.
pub struct Story {
    pub passages: Vec<Passage>,
    pub start: Option<String>,
}

impl View for Story {
    type V = StoryModel;

    open spec fn view(&self) -> StoryModel {
        StoryModel {
            passages: self.passages.deep_view(),
            start: match self.start {
                Some(ref s) => Some(s@),
                None => None,
            },
        }
    }
}

/// `s` without its leading spaces.
pub open spec fn trim_left(s: Seq<char>) -> Seq<char>
    decreases s.len(),
{
    if s.len() > 0 && s[0] == ' ' {
        trim_left(s.drop_first())
    } else {
        s
    }
}

/// `s` without its trailing spaces.
pub open spec fn trim_right(s: Seq<char>) -> Seq<char>
    decreases s.len(),
{
    if s.len() > 0 && s.last() == ' ' {
        trim_right(s.drop_last())
    } else {
        s
    }
}

/// `s` without leading and trailing spaces.
pub open spec fn trim_spaces(s: Seq<char>) -> Seq<char> {
    trim_right(trim_left(s))
}

proof fn lemma_trim_left_skip(s: Seq<char>, k: nat)
    requires
        k <= s.len(),
        forall|i: int| 0 <= i < k ==> s[i] == ' ',
        k == s.len() || s[k as int] != ' ',
    ensures
        trim_left(s) == s.skip(k as int),
    decreases k,
{
    if k == 0 {
        assert(s.skip(0) =~= s);
    } else {
        let t = s.drop_first();
        lemma_trim_left_skip(t, (k - 1) as nat);
        assert(t.skip(k - 1) =~= s.skip(k as int));
    }
}

proof fn lemma_trim_right_take(s: Seq<char>, b: nat)
    requires
        b <= s.len(),
        forall|i: int| b <= i < s.len() ==> s[i] == ' ',
        b == 0 || s[b - 1] != ' ',
    ensures
        trim_right(s) == s.take(b as int),
    decreases s.len(),
{
    if b == s.len() {
        assert(s.take(b as int) =~= s);
    } else {
        let t = s.drop_last();
        lemma_trim_right_take(t, b);
        assert(t.take(b as int) =~= s.take(b as int));
    }
}

/// `v` without leading and trailing spaces.
pub fn trim_spaces_exec(v: &Vec<char>) -> (r: Vec<char>)
    ensures
        r@ == trim_spaces(v@),
{
    let n = v.len();
    let mut a: usize = 0;
    while a < n && v[a] == ' '
        invariant
            n == v@.len(),
            a <= n,
            forall|i: int| 0 <= i < a ==> v@[i] == ' ',
        decreases n - a,
    {
        a = a + 1;
    }
    proof {
        lemma_trim_left_skip(v@, a as nat);
    }
    if a == n {
        proof {
            assert(v@.skip(a as int) =~= Seq::<char>::empty());
            assert(trim_right(Seq::<char>::empty()) == Seq::<char>::empty());
        }
        return Vec::new();
    }
    let mut b: usize = n;
    while b > a + 1 && v[b - 1] == ' '
        invariant
            n == v@.len(),
            a < b <= n,
            forall|i: int| b <= i < n ==> v@[i] == ' ',
        decreases b,
    {
        b = b - 1;
    }
    proof {
        // when the second loop stopped at b == a + 1, the character there is
        // v[a], which the first loop showed is no space
        assert(v@[b - 1] != ' ');
        let t = v@.skip(a as int);
        lemma_trim_right_take(t, (b - a) as nat);
        assert(t.take(b - a) =~= v@.subrange(a as int, b as int));
    }
    sub_chars(v, a, b)
}

/// The lines of `s` at or after `from`, split on newline characters.
pub open spec fn lines_from(s: Seq<char>, from: nat) -> Seq<Seq<char>>
    decreases s.len() - from
        via lines_from_decreases
{
    match find1(s, '\n', from) {
        None => seq![s.skip(from as int)],
        Some(i) => seq![s.subrange(from as int, i as int)] + lines_from(s, (i + 1) as nat),
    }
}

#[via_fn]
proof fn lines_from_decreases(s: Seq<char>, from: nat) {
    lemma_find1_props(s, '\n', from);
}

/// The lines of `v`, split on newline characters.
fn split_lines(v: &Vec<char>) -> (r: Vec<Vec<char>>)
    ensures
        r.deep_view() == lines_from(v@, 0),
{
    let mut out: Vec<Vec<char>> = Vec::new();
    let mut pos: usize = 0;
    loop
        invariant
            pos <= v@.len(),
            lines_from(v@, 0) == out.deep_view() + lines_from(v@, pos as nat),
        decreases v@.len() - pos,
    {
        let n = v.len();
        match find1_exec(v, '\n', pos) {
            None => {
                let ghost mid = out.deep_view();
                out.push(sub_chars(v, pos, n));
                proof {
                    assert(v@.subrange(pos as int, n as int) =~= v@.skip(pos as int));
                    assert(out.deep_view() =~~= mid + lines_from(v@, pos as nat));
                    assert(out.deep_view() =~~= lines_from(v@, 0));
                }
                return out;
            },
            Some(i) => {
                proof {
                    lemma_find1_props(v@, '\n', pos as nat);
                    assert(pos <= i && i < n);
                }
                let ghost mid = out.deep_view();
                out.push(sub_chars(v, pos, i));
                proof {
                    assert(out.deep_view() =~~= mid + seq![v@.subrange(pos as int, i as int)]);
                    assert(out.deep_view() + lines_from(v@, (i + 1) as nat) =~~= mid + lines_from(
                        v@,
                        pos as nat,
                    ));
                }
                pos = i + 1;
            },
        }
    }
}

/// A header line begins a passage: it starts with the two characters `::`.
pub open spec fn is_header(line: Seq<char>) -> bool {
    line.len() >= 2 && line[0] == ':' && line[1] == ':'
}

/// The passage name a header line declares.
pub open spec fn header_name(line: Seq<char>) -> Seq<char> {
    trim_spaces(line.skip(2))
}

fn is_header_exec(line: &Vec<char>) -> (r: bool)
    ensures
        r == is_header(line@),
{
    line.len() >= 2 && line[0] == ':' && line[1] == ':'
}

/// Index of the first header line at or after `i`, or `lines.len()`.
pub open spec fn next_header(lines: Seq<Seq<char>>, i: nat) -> nat
    decreases lines.len() - i,
{
    if i >= lines.len() {
        lines.len()
    } else if is_header(lines[i as int]) {
        i
    } else {
        next_header(lines, (i + 1) as nat)
    }
}

proof fn lemma_next_header_props(lines: Seq<Seq<char>>, i: nat)
    requires
        i <= lines.len(),
    ensures
        i <= next_header(lines, i) <= lines.len(),
        next_header(lines, i) < lines.len() ==> is_header(lines[next_header(lines, i) as int]),
        forall|k: int| i <= k < next_header(lines, i) ==> !is_header(lines[k]),
    decreases lines.len() - i,
{
    if i >= lines.len() {
    } else if is_header(lines[i as int]) {
    } else {
        lemma_next_header_props(lines, (i + 1) as nat);
    }
}

/// The content of a passage: its lines joined with newlines.
pub open spec fn join_lines(ls: Seq<Seq<char>>) -> Seq<char>
    decreases ls.len(),
{
    if ls.len() == 0 {
        seq![]
    } else if ls.len() == 1 {
        ls[0]
    } else {
        ls[0] + seq!['\n'] + join_lines(ls.drop_first())
    }
}

proof fn lemma_join_snoc(ls: Seq<Seq<char>>, x: Seq<char>)
    ensures
        join_lines(ls.push(x)) == if ls.len() == 0 {
            x
        } else {
            join_lines(ls) + seq!['\n'] + x
        },
    decreases ls.len(),
{
    reveal_with_fuel(join_lines, 3);
    if ls.len() == 0 {
        assert(ls.push(x) =~= seq![x]);
    } else if ls.len() == 1 {
        assert(ls.push(x).drop_first() =~= seq![x]);
    } else {
        lemma_join_snoc(ls.drop_first(), x);
        assert(ls.push(x).drop_first() =~= ls.drop_first().push(x));
    }
}

/// The passages declared by `lines` from header index `i` on: each header
/// line opens a passage whose content runs to the next header.
pub open spec fn passages_from(lines: Seq<Seq<char>>, i: nat) -> Seq<PassageModel>
    decreases lines.len() - i
        via passages_from_decreases
{
    if i >= lines.len() {
        seq![]
    } else {
        let j = next_header(lines, (i + 1) as nat);
        seq![
            PassageModel {
                name: header_name(lines[i as int]),
                content: join_lines(lines.subrange(i as int + 1, j as int)),
            },
        ] + passages_from(lines, j)
    }
}

#[via_fn]
proof fn passages_from_decreases(lines: Seq<Seq<char>>, i: nat) {
    if i < lines.len() {
        lemma_next_header_props(lines, (i + 1) as nat);
    }
}

/// No two passages share a name.
pub open spec fn names_unique(ps: Seq<PassageModel>) -> bool {
    forall|i: int, j: int| 0 <= i < j < ps.len() ==> ps[i].name != ps[j].name
}

/// The first passage named `name`, if any. Under `names_unique` it is the
/// only one.
pub open spec fn find_passage(ps: Seq<PassageModel>, name: Seq<char>) -> Option<PassageModel>
    decreases ps.len(),
{
    if ps.len() == 0 {
        None
    } else if ps[0].name == name {
        Some(ps[0])
    } else {
        find_passage(ps.drop_first(), name)
    }
}

/// The conventional name of the entry passage.
pub open spec fn start_name() -> Seq<char> {
    "Start"@
}

/// What `parse` returns, as a function of the input text alone.
pub open spec fn parse_spec(text: Seq<char>) -> Result<StoryModel, EngineError> {
    let lines = lines_from(text, 0);
    let h0 = next_header(lines, 0);
    if exists|k: int| 0 <= k < h0 && lines[k].len() != 0 {
        Err(EngineError::MalformedStory)
    } else {
        let ps = passages_from(lines, h0);
        if ps.len() == 0 {
            Err(EngineError::MalformedStory)
        } else if exists|k: int| 0 <= k < ps.len() && ps[k].name.len() == 0 {
            Err(EngineError::MalformedStory)
        } else if !names_unique(ps) {
            Err(EngineError::MalformedStory)
        } else if exists|k: int| 0 <= k < ps.len() && !brackets_closed_from(ps[k].content, 0) {
            Err(EngineError::MalformedStory)
        } else if find_passage(ps, start_name()) is None {
            Err(EngineError::NoStartPassage)
        } else {
            Ok(StoryModel { passages: ps, start: Some(start_name()) })
        }
    }
}

impl Story {
    /// The graph is well formed: passage names are unique and the entry
    /// passage, when designated, resolves.
    pub open spec fn wf(&self) -> bool {
        &&& names_unique(self@.passages)
        &&& match self@.start {
            Some(nm) => find_passage(self@.passages, nm) is Some,
            None => true,
        }
    }

    /// The passage named `name`, if the graph has one.
    pub fn get_passage(&self, name: &str) -> (r: Option<&Passage>)
        ensures
            match r {
                Some(p) => find_passage(self@.passages, name@) == Some(p@),
                None => find_passage(self@.passages, name@) is None,
            },
    {
        find_in_passages(&self.passages, name)
    }
}

/// The first passage of `ps` named `name`, by linear scan.
pub fn find_in_passages<'a>(ps: &'a Vec<Passage>, name: &str) -> (r: Option<&'a Passage>)
    ensures
        match r {
            Some(p) => find_passage(ps.deep_view(), name@) == Some(p@),
            None => find_passage(ps.deep_view(), name@) is None,
        },
{
    let ghost m = ps.deep_view();
    proof {
        assert(m.skip(0) =~= m);
    }
    let mut i: usize = 0;
    while i < ps.len()
        invariant
            m == ps.deep_view(),
            i <= m.len(),
            find_passage(m, name@) == find_passage(m.skip(i as int), name@),
        decreases ps.len() - i,
    {
        if str_eq(ps[i].name.as_str(), name) {
            proof {
                assert(m.skip(i as int)[0] == m[i as int]);
            }
            return Some(&ps[i]);
        }
        proof {
            assert(m.skip(i as int).drop_first() =~= m.skip(i as int + 1));
        }
        i = i + 1;
    }
    proof {
        assert(m.skip(i as int) =~= Seq::<PassageModel>::empty());
    }
    None
}

/// Parses raw story text into an immutable passage graph.
///
/// Parsing is strict: a structural defect fails with `MalformedStory`, a
/// story without an entry passage with `NoStartPassage`. The result is a
/// function of the text alone, so repeated parses of the same text yield
/// structurally identical graphs.
#[verifier::loop_isolation(false)]
pub fn parse(raw_text: &str) -> (r: Result<Story, EngineError>)
    ensures
        match r {
            Ok(story) => parse_spec(raw_text@) == Ok::<StoryModel, EngineError>(story@)
                && story.wf(),
            Err(e) => parse_spec(raw_text@) == Err::<StoryModel, EngineError>(e),
        },
{
    let text = chars_of(raw_text);
    let lines = split_lines(&text);
    let ghost lm = lines.deep_view();
    let n_lines = lines.len();

    // Scan the preamble: every line before the first header must be empty.
    let mut h0: usize = 0;
    while h0 < n_lines && !is_header_exec(&lines[h0])
        invariant
            h0 <= n_lines,
            next_header(lm, 0) == next_header(lm, h0 as nat),
            forall|k: int| 0 <= k < h0 ==> lm[k].len() == 0,
        decreases n_lines - h0,
    {
        if lines[h0].len() != 0 {
            proof {
                lemma_next_header_props(lm, (h0 + 1) as nat);
                assert(0 <= h0 < next_header(lm, 0) && lm[h0 as int].len() != 0);
                assert(exists|k: int| 0 <= k < next_header(lm, 0) && lm[k].len() != 0);
            }
            return Err(EngineError::MalformedStory);
        }
        h0 = h0 + 1;
    }
    proof {
        assert(next_header(lm, 0) == h0 as nat);
    }

    // Group the lines into passages, one per header.
    let mut passages: Vec<Passage> = Vec::new();
    let mut i: usize = h0;
    while i < n_lines
        invariant
            lm == lines.deep_view(),
            n_lines == lm.len(),
            i <= n_lines,
            i == n_lines || is_header(lm[i as int]),
            passages_from(lm, h0 as nat) == passages.deep_view() + passages_from(lm, i as nat),
        decreases n_lines - i,
    {
        let header = &lines[i];
        let name_chars = trim_spaces_exec(&sub_chars(header, 2, header.len()));
        proof {
            assert(lm[i as int].subrange(2, lm[i as int].len() as int) =~= lm[i as int].skip(2));
        }
        let name = string_of(&name_chars);

        let mut content: Vec<char> = Vec::new();
        let mut j: usize = i + 1;
        while j < n_lines && !is_header_exec(&lines[j])
            invariant
                i + 1 <= j <= n_lines,
                next_header(lm, (i + 1) as nat) == next_header(lm, j as nat),
                content@ == join_lines(lm.subrange(i as int + 1, j as int)),
            decreases n_lines - j,
        {
            let ghost before = lm.subrange(i as int + 1, j as int);
            if j > i + 1 {
                content.push('\n');
            }
            let line = &lines[j];
            push_range(&mut content, line, 0, line.len());
            proof {
                lemma_join_snoc(before, lm[j as int]);
                assert(lm[j as int].subrange(0, lm[j as int].len() as int) =~= lm[j as int]);
                assert(lm.subrange(i as int + 1, j as int + 1) =~= before.push(lm[j as int]));
                assert(content@ =~= join_lines(lm.subrange(i as int + 1, j as int + 1)));
            }
            j = j + 1;
        }
        proof {
            assert(next_header(lm, (i + 1) as nat) == j as nat);
        }
        let raw_content = string_of(&content);
        let ghost mid = passages.deep_view();
        passages.push(Passage { name, raw_content });
        proof {
            assert(passages.deep_view() =~= mid + seq![
                PassageModel {
                    name: header_name(lm[i as int]),
                    content: join_lines(lm.subrange(i as int + 1, j as int)),
                },
            ]);
            assert(passages.deep_view() + passages_from(lm, j as nat) =~= mid + passages_from(
                lm,
                i as nat,
            ));
        }
        i = j;
    }
    let ghost ps = passages_from(lm, h0 as nat);
    proof {
        assert(passages.deep_view() =~= ps);
    }

    // Validate, in order: at least one passage, no empty name, no duplicate
    // name, every link bracket closed, and an entry passage present.
    let n_passages = passages.len();
    if n_passages == 0 {
        return Err(EngineError::MalformedStory);
    }
    let mut k: usize = 0;
    while k < n_passages
        invariant
            ps == passages.deep_view(),
            n_passages == ps.len(),
            k <= n_passages,
            forall|t: int| 0 <= t < k ==> ps[t].name.len() != 0,
        decreases n_passages - k,
    {
        if passages[k].name.as_str().is_empty() {
            proof {
                assert(0 <= k < ps.len() && ps[k as int].name.len() == 0);
                assert(exists|t: int| 0 <= t < ps.len() && ps[t].name.len() == 0);
            }
            return Err(EngineError::MalformedStory);
        }
        k = k + 1;
    }
    let mut a: usize = 0;
    while a < n_passages
        invariant
            ps == passages.deep_view(),
            n_passages == ps.len(),
            a <= n_passages,
            forall|t: int, u: int| 0 <= t < u < ps.len() && t < a ==> ps[t].name != ps[u].name,
        decreases n_passages - a,
    {
        let mut b: usize = a + 1;
        while b < n_passages
            invariant
                ps == passages.deep_view(),
                n_passages == ps.len(),
                a < b <= n_passages,
                forall|u: int| a < u < b ==> ps[a as int].name != ps[u].name,
            decreases n_passages - b,
        {
            if str_eq(passages[a].name.as_str(), passages[b].name.as_str()) {
                proof {
                    assert(0 <= a < b < ps.len() && ps[a as int].name == ps[b as int].name);
                    assert(!names_unique(ps));
                }
                return Err(EngineError::MalformedStory);
            }
            b = b + 1;
        }
        a = a + 1;
    }
    proof {
        assert(names_unique(ps));
    }
    let mut k2: usize = 0;
    while k2 < n_passages
        invariant
            ps == passages.deep_view(),
            n_passages == ps.len(),
            k2 <= n_passages,
            forall|t: int| 0 <= t < k2 ==> brackets_closed_from(ps[t].content, 0),
        decreases n_passages - k2,
    {
        let content = chars_of(passages[k2].raw_content.as_str());
        if !brackets_closed_exec(&content) {
            proof {
                assert(0 <= k2 < ps.len() && !brackets_closed_from(ps[k2 as int].content, 0));
                assert(exists|t: int| 0 <= t < ps.len() && !brackets_closed_from(ps[t].content, 0));
            }
            return Err(EngineError::MalformedStory);
        }
        k2 = k2 + 1;
    }
    if find_in_passages(&passages, "Start").is_none() {
        return Err(EngineError::NoStartPassage);
    }
    let start = String::from_str("Start");
    let story = Story { passages, start: Some(start) };
    proof {
        assert(story@.passages =~= ps);
        assert(story@ == parse_spec(raw_text@)->Ok_0);
    }
    Ok(story)
}

} // verus!
