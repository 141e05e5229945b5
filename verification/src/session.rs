//! The per-reader navigation state machine.
//!
//! One cycle presents a passage: its display text plus one selectable
//! control per link, each control carrying an opaque token
//! `"{reader_id}-{index}|{target}"`. A passage with no links is terminal:
//! its presentation offers no controls and the session ends. A selection
//! event whose token names a resolving passage advances the session and is
//! the point at which progress is persisted; a timeout ends the session
//! silently, leaving stored progress untouched.

use vstd::prelude::*;
use vstd::string::StringExecFns;

use crate::progress::ProgressStore;
use crate::render::{display_of, display_of_chars, links_from, links_of_chars, LinkModel};
use crate::story::{find_passage, EngineError, Passage, PassageModel, Story, StoryModel};
use crate::text::{chars_of, find1, find1_exec, lemma_find1_props, push_range, string_of, sub_chars};

verus! {

/// How long a presented choice stays selectable, in seconds.
pub const RESPONSE_TIMEOUT_SECONDS: u64 = 600;

/// Mathematical model of a selectable control.
pub struct ControlModel {
    pub token: Seq<char>,
    pub label: Seq<char>,
}

/// One selectable control: an opaque token and the label shown on it.
pub struct Control {
    pub token: String,
    pub label: String,
}

impl View for Control {
    type V = ControlModel;

    open spec fn view(&self) -> ControlModel {
        ControlModel { token: self.token@, label: self.label@ }
    }
}

impl DeepView for Control {
    type V = ControlModel;

    open spec fn deep_view(&self) -> ControlModel {
        self@
    }
}

/// Mathematical model of a rendered message.
pub struct PresentationModel {
    pub text: Seq<char>,
    pub controls: Seq<ControlModel>,
    pub ephemeral: bool,
}

/// A rendered message: a text body plus zero or more ordered controls.
/// A presentation without controls is terminal.
pub struct Presentation {
    pub text: String,
    pub controls: Vec<Control>,
    pub ephemeral: bool,
}

impl View for Presentation {
    type V = PresentationModel;

    open spec fn view(&self) -> PresentationModel {
        PresentationModel {
            text: self.text@,
            controls: self.controls.deep_view(),
            ephemeral: self.ephemeral,
        }
    }
}

/// The decimal digit character of `d`.
pub open spec fn digit_char(d: nat) -> char {
    if d == 0 {
        '0'
    } else if d == 1 {
        '1'
    } else if d == 2 {
        '2'
    } else if d == 3 {
        '3'
    } else if d == 4 {
        '4'
    } else if d == 5 {
        '5'
    } else if d == 6 {
        '6'
    } else if d == 7 {
        '7'
    } else if d == 8 {
        '8'
    } else {
        '9'
    }
}

/// The decimal digits of `n`, most significant first.
pub open spec fn dec_str(n: nat) -> Seq<char>
    decreases n,
{
    if n < 10 {
        seq![digit_char(n)]
    } else {
        dec_str(n / 10).push(digit_char(n % 10))
    }
}

fn digit_char_exec(d: u64) -> (c: char)
    requires
        d < 10,
    ensures
        c == digit_char(d as nat),
{
    if d == 0 {
        '0'
    } else if d == 1 {
        '1'
    } else if d == 2 {
        '2'
    } else if d == 3 {
        '3'
    } else if d == 4 {
        '4'
    } else if d == 5 {
        '5'
    } else if d == 6 {
        '6'
    } else if d == 7 {
        '7'
    } else if d == 8 {
        '8'
    } else {
        '9'
    }
}

/// The decimal digits of `n`, most significant first.
#[verifier::loop_isolation(false)]
pub fn dec_of_u64(n: u64) -> (s: Vec<char>)
    ensures
        s@ == dec_str(n as nat),
{
    let mut digits: Vec<char> = Vec::new();
    let mut m: u64 = n;
    while m > 9
        invariant
            dec_str(n as nat) == dec_str(m as nat) + digits@,
        decreases m,
    {
        let ghost before = digits@;
        let c = digit_char_exec(m % 10);
        digits.insert(0, c);
        proof {
            assert(digits@ =~= seq![c] + before);
            assert(dec_str(m as nat) == dec_str((m as nat) / 10).push(digit_char((m as nat) % 10)));
            assert(dec_str((m as nat) / 10) + (seq![c] + before) =~= dec_str(m as nat) + before);
        }
        m = m / 10;
    }
    let ghost before = digits@;
    let c = digit_char_exec(m);
    digits.insert(0, c);
    proof {
        assert(digits@ =~= seq![c] + before);
        assert(dec_str(m as nat) =~= seq![c]);
        assert(digits@ =~= dec_str(m as nat) + before);
    }
    digits
}

/// The opaque token a control carries: the reader's identity, the control's
/// index within the message, and the literal target passage name.
pub open spec fn token_of(reader_id: u64, index: nat, target: Seq<char>) -> Seq<char> {
    dec_str(reader_id as nat) + seq!['-'] + dec_str(index) + seq!['|'] + target
}

/// Builds the token for one control.
pub fn make_token(reader_id: u64, index: usize, target: &str) -> (t: String)
    ensures
        t@ == token_of(reader_id, index as nat, target@),
{
    let mut v = dec_of_u64(reader_id);
    v.push('-');
    let ix = dec_of_u64(index as u64);
    push_range(&mut v, &ix, 0, ix.len());
    v.push('|');
    let tc = chars_of(target);
    push_range(&mut v, &tc, 0, tc.len());
    proof {
        assert(ix@.subrange(0, ix@.len() as int) =~= ix@);
        assert(tc@.subrange(0, tc@.len() as int) =~= tc@);
        assert(v@ =~= token_of(reader_id, index as nat, target@));
    }
    string_of(&v)
}

/// The target passage name encoded in a token: everything after the first
/// `|`, or nothing when the token carries none.
pub open spec fn token_target(token: Seq<char>) -> Option<Seq<char>> {
    match find1(token, '|', 0) {
        Some(i) => Some(token.skip(i as int + 1)),
        None => None,
    }
}

/// The controls presented for `links`, in link order: the label is the
/// link's label, the token encodes the link's target.
pub open spec fn controls_of(reader_id: u64, links: Seq<LinkModel>) -> Seq<ControlModel> {
    Seq::new(
        links.len(),
        |i: int|
            ControlModel {
                token: token_of(reader_id, i as nat, links[i].target),
                label: links[i].label,
            },
    )
}

/// The message presenting a passage: its display text and one control per
/// link. A link-less passage yields no controls and is terminal.
pub open spec fn presentation_of_passage(reader_id: u64, p: PassageModel) -> PresentationModel {
    PresentationModel {
        text: display_of(p.content),
        controls: controls_of(reader_id, links_from(p.content, 0)),
        ephemeral: true,
    }
}

/// Renders a passage into the message a reader is shown.
#[verifier::loop_isolation(false)]
pub fn message_from_passage(reader_id: u64, passage: &Passage) -> (r: Presentation)
    ensures
        r@ == presentation_of_passage(reader_id, passage@),
{
    let content = chars_of(passage.raw_content.as_str());
    let display = display_of_chars(&content);
    let text = string_of(&display);
    let links = links_of_chars(&content);
    let ghost lks = links.deep_view();
    let mut controls: Vec<Control> = Vec::new();
    let mut idx: usize = 0;
    while idx < links.len()
        invariant
            lks == links.deep_view(),
            idx <= lks.len(),
            controls.deep_view() == controls_of(reader_id, lks).take(idx as int),
        decreases links.len() - idx,
    {
        let token = make_token(reader_id, idx, links[idx].target.as_str());
        let label = links[idx].label.clone();
        controls.push(Control { token, label });
        proof {
            assert(controls.deep_view() =~= controls_of(reader_id, lks).take(idx + 1));
        }
        idx = idx + 1;
    }
    proof {
        assert(controls.deep_view() =~= controls_of(reader_id, lks));
    }
    Presentation { text, controls, ephemeral: true }
}

/// The fixed onboarding text shown to a reader with no stored progress.
pub open spec fn tutorial_text() -> Seq<char> {
    "# Tutorial\n\nWhen playing through this story, you will see text in double-brackets. For example, it'll look like this: [[Click here to start]].\nIf you see that, a button with the same text at the bottom of the post will take you to that page.\n\nTry it now!"@
}

/// The label of the tutorial's single control.
pub open spec fn tutorial_label() -> Seq<char> {
    "Click here to start"@
}

/// The tutorial message: the onboarding text with exactly one control whose
/// target is the story's entry passage.
pub open spec fn tutorial_presentation(reader_id: u64, start: Seq<char>) -> PresentationModel {
    PresentationModel {
        text: tutorial_text(),
        controls: seq![
            ControlModel { token: token_of(reader_id, 0, start), label: tutorial_label() },
        ],
        ephemeral: false,
    }
}

/// Builds the tutorial message for a first-time reader.
pub fn tutorial_passage(reader_id: u64, opening_passage_title: &str) -> (r: Presentation)
    ensures
        r@ == tutorial_presentation(reader_id, opening_passage_title@),
{
    let token = make_token(reader_id, 0, opening_passage_title);
    let label = String::from_str("Click here to start");
    let text = String::from_str(
        "# Tutorial\n\nWhen playing through this story, you will see text in double-brackets. For example, it'll look like this: [[Click here to start]].\nIf you see that, a button with the same text at the bottom of the post will take you to that page.\n\nTry it now!",
    );
    let mut controls: Vec<Control> = Vec::new();
    controls.push(Control { token, label });
    proof {
        assert(controls.deep_view() =~= tutorial_presentation(
            reader_id,
            opening_passage_title@,
        ).controls);
    }
    Presentation { text, controls, ephemeral: false }
}

/// What entering a session yields, as a function of the graph, the reader
/// and the stored progress: resume at stored progress when it resolves,
/// otherwise the tutorial aimed at the entry passage, and an error when the
/// story designates no entry.
pub open spec fn begin_spec(
    story: StoryModel,
    reader_id: u64,
    stored: Option<Seq<char>>,
) -> Result<PresentationModel, EngineError> {
    let resumed = match stored {
        Some(nm) => find_passage(story.passages, nm),
        None => None,
    };
    match resumed {
        Some(p) => Ok(presentation_of_passage(reader_id, p)),
        None => match story.start {
            Some(st) => Ok(tutorial_presentation(reader_id, st)),
            None => Err(EngineError::NoStartPassage),
        },
    }
}

/// Resolves a reader's starting point. Stored progress that resolves in the
/// graph resumes there; absent or stale progress falls back to the tutorial.
pub fn begin_session(story: &Story, reader_id: u64, stored: Option<&str>) -> (r: Result<
    Presentation,
    EngineError,
>)
    ensures
        match r {
            Ok(p) => begin_spec(
                story@,
                reader_id,
                match stored {
                    Some(s) => Some(s@),
                    None => None,
                },
            ) == Ok::<PresentationModel, EngineError>(p@),
            Err(e) => begin_spec(
                story@,
                reader_id,
                match stored {
                    Some(s) => Some(s@),
                    None => None,
                },
            ) == Err::<PresentationModel, EngineError>(e),
        },
{
    let resumed = match stored {
        Some(nm) => story.get_passage(nm),
        None => None,
    };
    match resumed {
        Some(p) => Ok(message_from_passage(reader_id, p)),
        None => match &story.start {
            Some(st) => Ok(tutorial_passage(reader_id, st.as_str())),
            None => Err(EngineError::NoStartPassage),
        },
    }
}

/// Mathematical model of an external event a waiting session can observe.
pub enum EventModel {
    ButtonPress { token: Seq<char> },
    UnsupportedInteraction,
    TimedOut,
}

/// An external event a waiting session can observe: the closed set of
/// selection kinds the transport can deliver, or the timeout.
pub enum SessionEvent {
    /// The reader pressed a control carrying this token.
    ButtonPress { token: String },
    /// A selection of a kind the presented message cannot produce.
    UnsupportedInteraction,
    /// No selection arrived within the timeout window.
    TimedOut,
}

impl View for SessionEvent {
    type V = EventModel;

    open spec fn view(&self) -> EventModel {
        match self {
            SessionEvent::ButtonPress { token } => EventModel::ButtonPress { token: token@ },
            SessionEvent::UnsupportedInteraction => EventModel::UnsupportedInteraction,
            SessionEvent::TimedOut => EventModel::TimedOut,
        }
    }
}

/// Mathematical model of one step of the state machine.
pub enum StepModel {
    Continue { target: Seq<char>, next: PresentationModel },
    Ended,
    Failed { error: EngineError },
}

/// One step of the state machine.
pub enum SessionStep {
    /// The selection resolved: persist `target`, then present `next`.
    Continue { target: String, next: Presentation },
    /// The session ended silently; stored progress is untouched.
    Ended,
    /// The session failed; stored progress is untouched.
    Failed { error: EngineError },
}

impl View for SessionStep {
    type V = StepModel;

    open spec fn view(&self) -> StepModel {
        match self {
            SessionStep::Continue { target, next } => StepModel::Continue {
                target: target@,
                next: next@,
            },
            SessionStep::Ended => StepModel::Ended,
            SessionStep::Failed { error } => StepModel::Failed { error: *error },
        }
    }
}

/// What one step of the state machine yields: a timeout ends the session, a
/// selection of an impossible kind or a token without a target is an
/// internal-invariant violation, a token naming an unresolved passage fails
/// with `MissingPassage`, and a resolving token continues at its target.
pub open spec fn advance_spec(story: StoryModel, reader_id: u64, event: EventModel) -> StepModel {
    match event {
        EventModel::TimedOut => StepModel::Ended,
        EventModel::UnsupportedInteraction => StepModel::Failed {
            error: EngineError::InternalInvariant,
        },
        EventModel::ButtonPress { token } => match token_target(token) {
            None => StepModel::Failed { error: EngineError::InternalInvariant },
            Some(target) => match find_passage(story.passages, target) {
                None => StepModel::Failed { error: EngineError::MissingPassage },
                Some(p) => StepModel::Continue {
                    target,
                    next: presentation_of_passage(reader_id, p),
                },
            },
        },
    }
}

/// Advances the state machine by one observed event.
pub fn advance(story: &Story, reader_id: u64, event: &SessionEvent) -> (r: SessionStep)
    ensures
        r@ == advance_spec(story@, reader_id, event@),
{
    match event {
        SessionEvent::TimedOut => SessionStep::Ended,
        SessionEvent::UnsupportedInteraction => SessionStep::Failed {
            error: EngineError::InternalInvariant,
        },
        SessionEvent::ButtonPress { token } => {
            let tv = chars_of(token.as_str());
            let n = tv.len();
            match find1_exec(&tv, '|', 0) {
                None => SessionStep::Failed { error: EngineError::InternalInvariant },
                Some(i) => {
                    proof {
                        lemma_find1_props(tv@, '|', 0);
                        assert(i < n);
                    }
                    let target_chars = sub_chars(&tv, i + 1, n);
                    proof {
                        assert(tv@.subrange(i as int + 1, n as int) =~= tv@.skip(i as int + 1));
                    }
                    let target = string_of(&target_chars);
                    match story.get_passage(target.as_str()) {
                        None => SessionStep::Failed { error: EngineError::MissingPassage },
                        Some(p) => {
                            let next = message_from_passage(reader_id, p);
                            SessionStep::Continue { target, next }
                        },
                    }
                },
            }
        },
    }
}

/// Advances the state machine and persists progress in one move: the store
/// is written exactly when the step continues, only after the target has
/// been confirmed to resolve, and holds the chosen target afterwards. On a
/// timeout or a failure the store is untouched.
///
/// The reader's identity arrives twice because the persistence key is a
/// signed integer while the transport identity is unsigned; the caller
/// converts at its edge, once, and hands both forms in.
pub fn resolve_selection(
    story: &Story,
    store: &mut ProgressStore,
    db_reader_id: i64,
    reader_id: u64,
    event: &SessionEvent,
) -> (r: SessionStep)
    requires
        old(store).wf(),
    ensures
        r@ == advance_spec(story@, reader_id, event@),
        final(store).wf(),
        match r@ {
            StepModel::Continue { target, .. } => final(store)@ == old(store)@.insert(
                db_reader_id as int,
                target,
            ),
            _ => *final(store) == *old(store),
        },
{
    let step = advance(story, reader_id, event);
    match &step {
        SessionStep::Continue { target, .. } => {
            let t = target.clone();
            store.set(db_reader_id, t);
        },
        _ => {},
    }
    step
}

} // verus!
