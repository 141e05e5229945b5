//! The engine's general guarantees, stated and proved once over the
//! mathematical models that the executable contracts are pinned to.

use vstd::prelude::*;

use crate::render::{brackets_closed_from, display_of, links_from, LinkModel};
use crate::session::{
    advance_spec, dec_str, digit_char, presentation_of_passage, token_of, token_target, EventModel,
    StepModel,
};
use crate::story::{
    find_passage, names_unique, parse_spec, start_name, EngineError, PassageModel, StoryModel,
};
use crate::text::{find1, lemma_find1_props, match1_at};

verus! {

/// Parsing is deterministic and side-effect-free: two parses of the same
/// text yield the same outcome — on success, graphs with the same passage
/// sequence, hence identical passage sets and identical raw content per
/// passage.
pub proof fn parse_deterministic(
    text: Seq<char>,
    r1: Result<StoryModel, EngineError>,
    r2: Result<StoryModel, EngineError>,
)
    requires
        r1 == parse_spec(text),
        r2 == parse_spec(text),
    ensures
        r1 == r2,
        r1 is Ok ==> r1->Ok_0.passages == r2->Ok_0.passages && r1->Ok_0.start == r2->Ok_0.start,
{
}

/// Rendering is pure and idempotent on a passage value: every rendering of
/// the same passage yields the same display text and the same ordered link
/// list.
pub proof fn render_deterministic(
    p: PassageModel,
    text1: Seq<char>,
    links1: Seq<LinkModel>,
    text2: Seq<char>,
    links2: Seq<LinkModel>,
)
    requires
        text1 == display_of(p.content),
        links1 == links_from(p.content, 0),
        text2 == display_of(p.content),
        links2 == links_from(p.content, 0),
    ensures
        text1 == text2,
        links1 == links2,
{
}

/// Parsing is strict: a graph it accepts has at least one passage, unique
/// and non-empty passage names, a closing `]]` for every `[[`, and an entry
/// passage that resolves — every structural defect has already failed the
/// parse.
pub proof fn parsed_story_is_well_formed(text: Seq<char>, story: StoryModel)
    requires
        parse_spec(text) == Ok::<StoryModel, EngineError>(story),
    ensures
        story.passages.len() > 0,
        names_unique(story.passages),
        forall|k: int| 0 <= k < story.passages.len() ==> #[trigger] story.passages[k].name.len()
            != 0,
        forall|k: int| 0 <= k < story.passages.len() ==> brackets_closed_from(
            #[trigger] story.passages[k].content,
            0,
        ),
        story.start == Some(start_name()),
        find_passage(story.passages, start_name()) is Some,
{
}

proof fn lemma_dec_str_digits(n: nat)
    ensures
        forall|k: int| 0 <= k < dec_str(n).len() ==> #[trigger] dec_str(n)[k] != '|'
            && dec_str(n)[k] != '-',
        dec_str(n).len() >= 1,
    decreases n,
{
    if n >= 10 {
        lemma_dec_str_digits(n / 10);
    }
}

/// The token built for a control recovers exactly the target it encodes:
/// the reader id and index digits hold no separator, so the split at the
/// first `|` returns the literal target, whatever characters it holds.
pub proof fn token_round_trip(reader_id: u64, index: nat, target: Seq<char>)
    ensures
        token_target(token_of(reader_id, index, target)) == Some(target),
{
    let prefix = dec_str(reader_id as nat) + seq!['-'] + dec_str(index);
    let token = token_of(reader_id, index, target);
    lemma_dec_str_digits(reader_id as nat);
    lemma_dec_str_digits(index);
    assert(token =~= prefix + seq!['|'] + target);
    let p = prefix.len() as int;
    assert(token[p] == '|');
    assert(forall|k: int| 0 <= k < p ==> token[k] != '|');
    lemma_find1_props(token, '|', 0);
    match find1(token, '|', 0) {
        Some(i) => {
            assert(match1_at(token, '|', p));
            assert(i as int <= p);
            assert(i as int == p);
            assert(token.skip(p + 1) =~= target);
        },
        None => {
            assert(match1_at(token, '|', p));
            assert(false);
        },
    }
}

/// A link whose target is not a key of the story's passage mapping cannot
/// be traversed: selecting its control fails the session with
/// `MissingPassage`.
pub proof fn broken_link_fails(story: StoryModel, reader_id: u64, index: nat, target: Seq<char>)
    requires
        find_passage(story.passages, target) is None,
    ensures
        advance_spec(
            story,
            reader_id,
            EventModel::ButtonPress { token: token_of(reader_id, index, target) },
        ) == (StepModel::Failed { error: EngineError::MissingPassage }),
{
    token_round_trip(reader_id, index, target);
}

/// A resolving link continues the session exactly at its target.
pub proof fn resolving_link_continues(
    story: StoryModel,
    reader_id: u64,
    index: nat,
    target: Seq<char>,
    p: PassageModel,
)
    requires
        find_passage(story.passages, target) == Some(p),
    ensures
        advance_spec(
            story,
            reader_id,
            EventModel::ButtonPress { token: token_of(reader_id, index, target) },
        ) == (StepModel::Continue { target, next: presentation_of_passage(reader_id, p) }),
{
    token_round_trip(reader_id, index, target);
}

/// A passage with zero extracted links is terminal: presenting it offers no
/// controls, so the session has nothing left to wait for and ends.
pub proof fn terminal_passage_offers_no_controls(reader_id: u64, p: PassageModel)
    requires
        links_from(p.content, 0).len() == 0,
    ensures
        presentation_of_passage(reader_id, p).controls.len() == 0,
{
}

/// Storing progress is idempotent under repetition: writing the same
/// `(reader, passage)` twice leaves the same mapping as writing it once.
/// Together with `ProgressStore::set`'s contract — after a write the reader
/// has exactly one row — repeated writes converge to one row with that
/// value.
pub proof fn progress_set_idempotent(m: Map<int, Seq<char>>, reader: int, passage: Seq<char>)
    ensures
        m.insert(reader, passage).insert(reader, passage) == m.insert(reader, passage),
{
    assert(m.insert(reader, passage).insert(reader, passage) =~= m.insert(reader, passage));
}

/// A timeout is not an error: the step is `Ended`, which carries nothing to
/// persist, so stored progress is unchanged (as `resolve_selection` also
/// states of the store itself).
pub proof fn timeout_ends_session(story: StoryModel, reader_id: u64)
    ensures
        advance_spec(story, reader_id, EventModel::TimedOut) == StepModel::Ended,
{
}

} // verus!
