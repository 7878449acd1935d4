//! The shell's decisions: which recording the hotkeys start and stop,
//! push-to-talk key tracking, what the sidecar's messages lead to, and the
//! writing mode sent when a recording ends.
//!
//! Two toggle hotkeys start and stop a recording in prose or command mode;
//! holding Ctrl+Shift+Space records in prose mode until Space is released.
//! Only one recording runs at a time, and a push-to-talk recording ends
//! only when the chord is released.

use crate::command_mode::{
    action_view, command_for, command_views, first_hit, match_command, phrase_hit, Action, ActionView,
    CustomCommand,
};
use crate::json::{json_field, json_parse, json_str, member_text, parsed_json};
use crate::modes::{mode_wire, WritingMode};
use crate::text::{
    ascii_lowercase, ascii_upper_char, ascii_lower_char, is_ascii_char, is_ascii_text, char_to_uppercase, chars_of, equals_str, lowercase_of, occurs_in, push_char, to_lowercase, uppercase_of};
use crate::text_insert::{insert_text, InsertMethod, PASTE_THRESHOLD_CHARS};
use vstd::prelude::*;

verus! {

/// What a recording's final transcript is used for.
#[derive(Clone, Copy, PartialEq, Eq, Debug, Structural)]
pub enum Mode {
    /// Inserted into the focused window.
    Prose,
    /// Matched against the command set and carried out.
    Command,
}

/// Hotkey id of the prose-dictation toggle.
pub const HOTKEY_ID: i32 = 1;
/// Hotkey id of the command-mode toggle.
pub const HOTKEY_ID_CMD: i32 = 2;

/// The main loop's state: the mode being recorded, if any, and whether the
/// recording was started by push-to-talk.
#[derive(Clone, Copy, PartialEq, Eq, Debug, Structural)]
pub struct ShellState {
    pub active: Option<Mode>,
    pub ptt_session: bool,
}

/// An input to the main loop.
#[derive(Clone, Copy, PartialEq, Eq, Debug, Structural)]
pub enum ShellEvent {
    /// The push-to-talk chord went down.
    PttDown,
    /// The push-to-talk chord was released.
    PttUp,
    /// A registered hotkey fired, with its id.
    Hotkey(i32),
}

/// What the main loop does in response to an event.
#[derive(Clone, Copy, PartialEq, Eq, Debug, Structural)]
pub enum ShellStep {
    /// Nothing.
    Nothing,
    /// Start a prose recording held by push-to-talk.
    StartPushToTalk,
    /// Start a recording in the given mode.
    Start(Mode),
    /// Stop the current recording.
    Stop,
    /// The toggle of a recording held by push-to-talk was pressed: it is not
    /// stopped, the chord must be released instead.
    HeldByPushToTalk,
    /// A toggle was pressed while a recording in another mode runs.
    Busy(Mode),
}

/// The mode a hotkey id toggles.
pub open spec fn hotkey_mode(id: i32) -> Option<Mode> {
    if id == HOTKEY_ID {
        Some(Mode::Prose)
    } else if id == HOTKEY_ID_CMD {
        Some(Mode::Command)
    } else {
        None
    }
}

pub open spec fn idle() -> ShellState {
    ShellState { active: None, ptt_session: false }
}

/// A push-to-talk session is always a prose recording.
pub open spec fn shell_wf(s: ShellState) -> bool {
    s.ptt_session ==> s.active == Some(Mode::Prose)
}

/// The main loop's transition on one event.
pub open spec fn shell_next(s: ShellState, e: ShellEvent) -> (ShellState, ShellStep) {
    match e {
        ShellEvent::PttDown => if s.active is None {
            (ShellState { active: Some(Mode::Prose), ptt_session: true }, ShellStep::StartPushToTalk)
        } else {
            (s, ShellStep::Nothing)
        },
        ShellEvent::PttUp => if s.ptt_session {
            (idle(), ShellStep::Stop)
        } else {
            (s, ShellStep::Nothing)
        },
        ShellEvent::Hotkey(id) => match hotkey_mode(id) {
            None => (s, ShellStep::Nothing),
            Some(pressed) => match s.active {
                Some(current) => if current == pressed {
                    if s.ptt_session {
                        (s, ShellStep::HeldByPushToTalk)
                    } else {
                        (ShellState { active: None, ptt_session: s.ptt_session }, ShellStep::Stop)
                    }
                } else {
                    (s, ShellStep::Busy(current))
                },
                None => (ShellState { active: Some(pressed), ptt_session: s.ptt_session }, ShellStep::Start(pressed)),
            },
        },
    }
}

impl ShellState {
    /// No recording.
    pub fn new() -> (s: ShellState)
        ensures
            s == idle(),
    {
        ShellState { active: None, ptt_session: false }
    }

    /// The state after an event, and what to do about it.
    pub fn step(self, e: ShellEvent) -> (r: (ShellState, ShellStep))
        ensures
            r == shell_next(self, e),
    {
        match e {
            ShellEvent::PttDown => {
                if self.active.is_none() {
                    (ShellState { active: Some(Mode::Prose), ptt_session: true }, ShellStep::StartPushToTalk)
                } else {
                    (self, ShellStep::Nothing)
                }
            },
            ShellEvent::PttUp => {
                if self.ptt_session {
                    (ShellState { active: None, ptt_session: false }, ShellStep::Stop)
                } else {
                    (self, ShellStep::Nothing)
                }
            },
            ShellEvent::Hotkey(id) => {
                let pressed = if id == HOTKEY_ID {
                    Mode::Prose
                } else if id == HOTKEY_ID_CMD {
                    Mode::Command
                } else {
                    return (self, ShellStep::Nothing);
                };
                match self.active {
                    Some(current) => {
                        if current == pressed {
                            if self.ptt_session {
                                (self, ShellStep::HeldByPushToTalk)
                            } else {
                                (ShellState { active: None, ptt_session: self.ptt_session }, ShellStep::Stop)
                            }
                        } else {
                            (self, ShellStep::Busy(current))
                        }
                    },
                    None => (ShellState { active: Some(pressed), ptt_session: self.ptt_session }, ShellStep::Start(pressed)),
                }
            },
        }
    }
}

/// Every transition keeps a push-to-talk session a prose recording.
pub proof fn lemma_shell_step_keeps_wf(s: ShellState, e: ShellEvent)
    requires
        shell_wf(s),
    ensures
        shell_wf(shell_next(s, e).0),
{
}

/// At most one recording runs at a time: a recording is started only when
/// none runs, stopped only when one runs, and a stop leaves none running.
pub proof fn lemma_one_recording_at_a_time(s: ShellState, e: ShellEvent)
    requires
        shell_wf(s),
    ensures
        (shell_next(s, e).1 is Start || shell_next(s, e).1 is StartPushToTalk) ==> s.active is None
            && shell_next(s, e).0.active is Some,
        shell_next(s, e).1 is Stop ==> s.active is Some && shell_next(s, e).0 == idle(),
        !(shell_next(s, e).1 is Start || shell_next(s, e).1 is StartPushToTalk
            || shell_next(s, e).1 is Stop) ==> shell_next(s, e).0 == s,
{
}

/// A recording held by push-to-talk is stopped only by releasing the
/// chord: no hotkey stops it.
pub proof fn lemma_push_to_talk_ends_only_on_release(s: ShellState, id: i32)
    requires
        shell_wf(s),
        s.ptt_session,
    ensures
        shell_next(s, ShellEvent::Hotkey(id)).0 == s,
        shell_next(s, ShellEvent::PttDown).0 == s,
        shell_next(s, ShellEvent::PttUp) == (idle(), ShellStep::Stop),
{
}

/// One keyboard event as the low-level hook sees it.
#[derive(Clone, Copy, PartialEq, Eq, Debug, Structural)]
pub struct HookKey {
    /// Synthesized by `SendInput` (ours or another program's), not typed.
    pub injected: bool,
    /// The Space key.
    pub is_space: bool,
    /// A key-down (or system key-down) message.
    pub key_down: bool,
    /// A key-up (or system key-up) message.
    pub key_up: bool,
    /// Ctrl is physically held.
    pub ctrl: bool,
    /// Shift is physically held.
    pub shift: bool,
}

/// A message the hook posts to the main loop.
#[derive(Clone, Copy, PartialEq, Eq, Debug, Structural)]
pub enum PttSignal {
    Quiet,
    Down,
    Up,
}

/// The hook's decision: whether the chord is now held, what to post, and
/// whether to swallow the key (not pass it to the next hook).
#[derive(Clone, Copy, PartialEq, Eq, Debug, Structural)]
pub struct HookDecision {
    pub held: bool,
    pub post: PttSignal,
    pub swallow: bool,
}

/// Push-to-talk tracking: a physical Space press with Ctrl and Shift held
/// marks the chord held (posting `Down` only on the first press, not on
/// key repeats); releasing Space while held posts `Up`. Every physical
/// Space event while Ctrl and Shift are held is swallowed, so holding the
/// chord never leaks a literal space (or the chord itself) into the
/// focused app; so is the release that ends a push-to-talk hold. Injected
/// events and every other key pass through untouched.
pub open spec fn ptt_decision(held: bool, k: HookKey) -> HookDecision {
    if !k.injected && k.is_space && k.key_down && k.ctrl && k.shift {
        HookDecision { held: true, post: if held { PttSignal::Quiet } else { PttSignal::Down }, swallow: true }
    } else if !k.injected && k.is_space && k.key_up && held {
        HookDecision { held: false, post: PttSignal::Up, swallow: true }
    } else if !k.injected && k.is_space && k.ctrl && k.shift {
        HookDecision { held, post: PttSignal::Quiet, swallow: true }
    } else {
        HookDecision { held, post: PttSignal::Quiet, swallow: false }
    }
}

/// The low-level keyboard hook's decision for one event.
pub fn ptt_hook(held: bool, k: HookKey) -> (d: HookDecision)
    ensures
        d == ptt_decision(held, k),
        d.swallow == (!k.injected && k.is_space && ((k.ctrl && k.shift) || (k.key_up && held))),
        k.injected || !k.is_space ==> d == (HookDecision { held, post: PttSignal::Quiet, swallow: false }),
{
    if !k.injected && k.is_space {
        if k.key_down && k.ctrl && k.shift {
            let post = if held {
                PttSignal::Quiet
            } else {
                PttSignal::Down
            };
            return HookDecision { held: true, post, swallow: true };
        }
        if k.key_up && held {
            return HookDecision { held: false, post: PttSignal::Up, swallow: true };
        }
        if k.ctrl && k.shift {
            return HookDecision { held, post: PttSignal::Quiet, swallow: true };
        }
    }
    HookDecision { held, post: PttSignal::Quiet, swallow: false }
}

/// The signals posted while the hook sees `keys`, starting from `held`.
pub open spec fn ptt_posts(held: bool, keys: Seq<HookKey>) -> Seq<PttSignal>
    decreases keys.len(),
{
    if keys.len() == 0 {
        Seq::empty()
    } else {
        let d = ptt_decision(held, keys[0]);
        let rest = ptt_posts(d.held, keys.drop_first());
        if d.post is Quiet {
            rest
        } else {
            seq![d.post] + rest
        }
    }
}

pub open spec fn ptt_final_held(held: bool, keys: Seq<HookKey>) -> bool
    decreases keys.len(),
{
    if keys.len() == 0 {
        held
    } else {
        ptt_final_held(ptt_decision(held, keys[0]).held, keys.drop_first())
    }
}

/// The posted signals alternate, Down then Up then Down and so on: each
/// press of the chord starts exactly one push-to-talk recording and each
/// release ends it, however many key repeats the press produces.
pub proof fn lemma_ptt_signals_alternate(held: bool, keys: Seq<HookKey>)
    ensures
        forall|i: int|
            0 <= i < ptt_posts(held, keys).len() ==> #[trigger] ptt_posts(held, keys)[i] == if (i
                % 2 == 0) != held {
                PttSignal::Down
            } else {
                PttSignal::Up
            },
        ptt_final_held(held, keys) == ((ptt_posts(held, keys).len() % 2 == 1) != held),
    decreases keys.len(),
{
    if keys.len() > 0 {
        let d = ptt_decision(held, keys[0]);
        lemma_ptt_signals_alternate(d.held, keys.drop_first());
        let rest = ptt_posts(d.held, keys.drop_first());
        if !(d.post is Quiet) {
            assert forall|i: int| 0 <= i < ptt_posts(held, keys).len() implies #[trigger] ptt_posts(held, keys)[i] == if (i % 2 == 0) != held {
                PttSignal::Down
            } else {
                PttSignal::Up
            } by {
                if i > 0 {
                    assert(ptt_posts(held, keys)[i] == rest[i - 1]);
                }
            }
        }
    }
}

/// The writing mode sent when a recording ends: command-mode utterances
/// are instructions to match, so they always go as plain dictation, free
/// of any formatting that would corrupt them before matching.
pub fn end_mode_wire(mode: Mode, writing: WritingMode) -> (w: &'static str)
    ensures
        w@ == match mode {
            Mode::Prose => mode_wire(writing),
            Mode::Command => "dictation"@,
        },
{
    match mode {
        Mode::Prose => writing.wire(),
        Mode::Command => "dictation",
    }
}

/// A partial transcript as shown on the pill: the streaming model has no
/// casing of its own, so it is lowercased and its first letter capitalized.
pub open spec fn normalized_partial(text: Seq<char>) -> Seq<char> {
    let lower = lowercase_of(text);
    if lower.len() == 0 {
        lower
    } else {
        uppercase_of(lower[0]) + lower.drop_first()
    }
}

/// The same normalization on ASCII text, where the case mappings are the
/// ASCII ones: lowercased, then the first character uppercased.
pub open spec fn ascii_normalized(text: Seq<char>) -> Seq<char> {
    let lower = ascii_lowercase(text);
    if lower.len() == 0 {
        lower
    } else {
        seq![ascii_upper_char(lower[0])] + lower.drop_first()
    }
}

proof fn lemma_ascii_char_cases(c: char)
    requires
        is_ascii_char(c),
    ensures
        is_ascii_char(ascii_lower_char(c)),
        is_ascii_char(ascii_upper_char(c)),
        ascii_lower_char(ascii_lower_char(c)) == ascii_lower_char(c),
        ascii_lower_char(ascii_upper_char(ascii_lower_char(c))) == ascii_lower_char(c),
{
}

proof fn lemma_ascii_lowercase_keeps_ascii(t: Seq<char>)
    requires
        is_ascii_text(t),
    ensures
        is_ascii_text(ascii_lowercase(t)),
        ascii_lowercase(ascii_lowercase(t)) == ascii_lowercase(t),
{
    assert forall|i: int| 0 <= i < t.len() implies is_ascii_char(#[trigger] ascii_lowercase(t)[i])
        && ascii_lower_char(ascii_lowercase(t)[i]) == ascii_lowercase(t)[i] by {
        lemma_ascii_char_cases(t[i]);
    }
    assert(ascii_lowercase(ascii_lowercase(t)) =~= ascii_lowercase(t));
}

/// On ASCII text, normalizing twice is normalizing once, and the result
/// lowercases back to the lowercased text: the display only ever changes
/// the case of the first character.
pub proof fn lemma_normalize_partial_is_idempotent(text: Seq<char>)
    requires
        is_ascii_text(text),
    ensures
        is_ascii_text(ascii_normalized(text)),
        ascii_normalized(ascii_normalized(text)) == ascii_normalized(text),
        ascii_lowercase(ascii_normalized(text)) == ascii_lowercase(text),
{
    let l = ascii_lowercase(text);
    lemma_ascii_lowercase_keeps_ascii(text);
    if l.len() > 0 {
        let n = ascii_normalized(text);
        lemma_ascii_char_cases(text[0]);
        assert(l[0] == ascii_lower_char(text[0]));
        assert(is_ascii_text(n)) by {
            assert forall|i: int| 0 <= i < n.len() implies is_ascii_char(#[trigger] n[i]) by {
                if i > 0 {
                    assert(n[i] == l[i]);
                }
            }
        }
        assert(ascii_lowercase(n) =~= l) by {
            assert forall|i: int| 0 <= i < n.len() implies #[trigger] ascii_lowercase(n)[i] == l[i] by {
                if i > 0 {
                    assert(n[i] == l[i]);
                    lemma_ascii_char_cases(text[i]);
                    assert(l[i] == ascii_lower_char(text[i]));
                }
            }
        }
        assert(ascii_normalized(n) =~= n);
    }
}

/// Normalizes a raw streaming partial for display.
pub fn normalize_partial(text: &str) -> (r: String)
    ensures
        r@ == normalized_partial(text@),
        is_ascii_text(text@) ==> r@ == ascii_normalized(text@),
{
    let lower = to_lowercase(text);
    let chars = chars_of(lower.as_str());
    if chars.len() == 0 {
        return lower;
    }
    proof {
        if is_ascii_text(text@) {
            lemma_ascii_lowercase_keeps_ascii(text@);
            assert(is_ascii_char(chars@[0]));
        }
    }
    let mut out = char_to_uppercase(chars[0]);
    let mut i: usize = 1;
    while i < chars.len()
        invariant
            1 <= i <= chars.len(),
            chars@ == lowercase_of(text@),
            out@ == uppercase_of(chars@[0]) + chars@.subrange(1, i as int),
        decreases chars.len() - i,
    {
        push_char(&mut out, chars[i]);
        i = i + 1;
        assert(out@ =~= uppercase_of(chars@[0]) + chars@.subrange(1, i as int));
    }
    assert(chars@.subrange(1, i as int) =~= chars@.drop_first());
    proof {
        if is_ascii_text(text@) {
            assert(out@ =~= ascii_normalized(text@));
        }
    }
    out
}

/// A line received from the speech-recognition sidecar.
#[derive(Debug, Clone, PartialEq)]
pub enum SidecarMessage {
    /// The sidecar is ready to take audio.
    Ready,
    /// The live partial transcript so far.
    Partial(String),
    /// The finalized transcript of a recording.
    Final(String),
    /// Anything else, including lines that are not JSON: ignored.
    Other,
}

pub enum SidecarMessageView {
    Ready,
    Partial(Seq<char>),
    Final(Seq<char>),
    Other,
}

impl View for SidecarMessage {
    type V = SidecarMessageView;

    open spec fn view(&self) -> SidecarMessageView {
        match self {
            SidecarMessage::Ready => SidecarMessageView::Ready,
            SidecarMessage::Partial(t) => SidecarMessageView::Partial(t@),
            SidecarMessage::Final(t) => SidecarMessageView::Final(t@),
            SidecarMessage::Other => SidecarMessageView::Other,
        }
    }
}

pub open spec fn text_or_empty(text: Option<Seq<char>>) -> Seq<char> {
    match text {
        Some(t) => t,
        None => Seq::empty(),
    }
}

/// A message by its `type` member and its `text` member (each present only
/// when it is a string); a missing text counts as empty.
pub open spec fn message_of(kind: Option<Seq<char>>, text: Option<Seq<char>>) -> SidecarMessageView {
    match kind {
        Some(k) => if k == "ready"@ {
            SidecarMessageView::Ready
        } else if k == "partial"@ {
            SidecarMessageView::Partial(text_or_empty(text))
        } else if k == "final"@ {
            SidecarMessageView::Final(text_or_empty(text))
        } else {
            SidecarMessageView::Other
        },
        None => SidecarMessageView::Other,
    }
}

pub open spec fn opt_str_view(s: Option<&str>) -> Option<Seq<char>> {
    match s {
        Some(t) => Some(t@),
        None => None,
    }
}

fn owned_text(text: Option<&str>) -> (r: String)
    ensures
        r@ == text_or_empty(opt_str_view(text)),
{
    let mut r = String::new();
    match text {
        Some(t) => r.append(t),
        None => {},
    }
    r
}

/// Classifies a sidecar message by its `type` and `text` members.
pub fn classify_message(kind: Option<&str>, text: Option<&str>) -> (m: SidecarMessage)
    ensures
        m@ == message_of(opt_str_view(kind), opt_str_view(text)),
{
    match kind {
        Some(k) => {
            let kc = chars_of(k);
            if equals_str(&kc, "ready") {
                SidecarMessage::Ready
            } else if equals_str(&kc, "partial") {
                SidecarMessage::Partial(owned_text(text))
            } else if equals_str(&kc, "final") {
                SidecarMessage::Final(owned_text(text))
            } else {
                SidecarMessage::Other
            }
        },
        None => SidecarMessage::Other,
    }
}

/// The message a sidecar line stands for: classified by the string members
/// `type` and `text` of the parsed document; a line that does not parse is
/// `Other`.
pub open spec fn sidecar_line_message(line: Seq<char>) -> SidecarMessageView {
    match parsed_json(line) {
        Some(doc) => message_of(member_text(doc, "type"@), member_text(doc, "text"@)),
        None => SidecarMessageView::Other,
    }
}

/// A ready, partial or final line carries what it says: a parsed line whose
/// `type` is "partial" or "final" and whose `text` is a string gives that
/// very text; one without a string `text` gives empty text; "ready" is
/// ready whatever else it holds.
pub proof fn lemma_sidecar_lines_carry_their_text(line: Seq<char>, doc: serde_json::Value, t: Seq<char>)
    requires
        parsed_json(line) == Some(doc),
    ensures
        member_text(doc, "type"@) == Some("final"@) && member_text(doc, "text"@) == Some(t)
            ==> sidecar_line_message(line) == SidecarMessageView::Final(t),
        member_text(doc, "type"@) == Some("partial"@) && member_text(doc, "text"@) == Some(t)
            ==> sidecar_line_message(line) == SidecarMessageView::Partial(t),
        member_text(doc, "type"@) == Some("final"@) && member_text(doc, "text"@) is None
            ==> sidecar_line_message(line) == SidecarMessageView::Final(Seq::empty()),
        member_text(doc, "type"@) == Some("ready"@) ==> sidecar_line_message(line)
            == SidecarMessageView::Ready,
{
    reveal_strlit("ready");
    reveal_strlit("partial");
    reveal_strlit("final");
    assert("final"@ != "ready"@) by {
        assert("final"@[0] != "ready"@[0]);
    }
    assert("final"@ != "partial"@) by {
        assert("final"@.len() != "partial"@.len());
    }
    assert("partial"@ != "ready"@) by {
        assert("partial"@.len() != "ready"@.len());
    }
}

/// Reads one line from the sidecar: a JSON object whose `type` member says
/// what it is and whose `text` member carries a transcript. Lines that are
/// not JSON are `Other`.
pub fn parse_sidecar_line(line: &str) -> (m: SidecarMessage)
    ensures
        m@ == sidecar_line_message(line@),
{
    match json_parse(line) {
        Some(doc) => {
            let kind = match json_field(&doc, "type") {
                Some(v) => json_str(v),
                None => None,
            };
            let text = match json_field(&doc, "text") {
                Some(v) => json_str(v),
                None => None,
            };
            classify_message(kind, text)
        },
        None => SidecarMessage::Other,
    }
}

/// What to do with a final transcript.
#[derive(Debug, Clone, PartialEq)]
pub enum FinalStep {
    /// The transcript is empty: nothing to do.
    Skip,
    /// Prose: insert the text by this method.
    Insert(InsertMethod),
    /// Command mode: carry out this action.
    Run(Action),
    /// Command mode: the text matched no command.
    Unrecognized,
}

pub enum FinalStepView {
    Skip,
    Insert(InsertMethod),
    Run(ActionView),
    Unrecognized,
}

impl View for FinalStep {
    type V = FinalStepView;

    open spec fn view(&self) -> FinalStepView {
        match self {
            FinalStep::Skip => FinalStepView::Skip,
            FinalStep::Insert(m) => FinalStepView::Insert(*m),
            FinalStep::Run(a) => FinalStepView::Run(a@),
            FinalStep::Unrecognized => FinalStepView::Unrecognized,
        }
    }
}

/// The step for a final transcript: nothing for empty text; in prose mode
/// insertion (pasting long text, typing short text); in command mode the
/// matched action, or none.
pub open spec fn final_step_of(text: Seq<char>, mode: Mode, custom: Seq<CustomCommand>) -> FinalStepView {
    if text.len() == 0 {
        FinalStepView::Skip
    } else {
        match mode {
            Mode::Prose => FinalStepView::Insert(
                if text.len() >= PASTE_THRESHOLD_CHARS {
                    InsertMethod::Paste
                } else {
                    InsertMethod::Type
                },
            ),
            Mode::Command => match command_for(lowercase_of(text), command_views(custom)) {
                Some(a) => FinalStepView::Run(a),
                None => FinalStepView::Unrecognized,
            },
        }
    }
}

/// In Command Mode a transcript that contains one of the user's phrases
/// runs that user's binding: the first command in the list whose phrase
/// occurs in the lowercased transcript, with its modifiers and key.
pub proof fn lemma_command_mode_runs_custom_binding(text: Seq<char>, custom: Seq<CustomCommand>, i: int)
    requires
        text.len() > 0,
        0 <= i < custom.len(),
        occurs_in(lowercase_of(text), custom[i].phrase@),
        forall|j: int| 0 <= j < i ==> !occurs_in(lowercase_of(text), #[trigger] custom[j].phrase@),
    ensures
        final_step_of(text, Mode::Command, custom) == FinalStepView::Run(
            ActionView::Custom(custom[i].modifiers@, custom[i].key),
        ),
{
    let t = lowercase_of(text);
    let cs = command_views(custom);
    assert(cs[i] == custom[i]@);
    assert forall|j: int| 0 <= j < i implies !phrase_hit(t, #[trigger] cs[j]) by {
        assert(cs[j] == custom[j]@);
    }
    assert(first_hit(t, cs, i));
    let c = choose|c: int| first_hit(t, cs, c);
    if c < i {
        assert(cs[c] == custom[c]@);
    } else if c > i {
        assert(!phrase_hit(t, cs[i]));
    }
}

/// Decides what a final transcript leads to.
pub fn on_final(text: &str, mode: Mode, custom: &Vec<CustomCommand>) -> (r: FinalStep)
    ensures
        r@ == final_step_of(text@, mode, custom@),
{
    let chars = chars_of(text);
    if chars.len() == 0 {
        return FinalStep::Skip;
    }
    match mode {
        Mode::Prose => FinalStep::Insert(insert_text(text)),
        Mode::Command => match match_command(text, custom) {
            Some(a) => FinalStep::Run(a),
            None => FinalStep::Unrecognized,
        },
    }
}

/// `RegisterHotKey` modifier flags.
pub const MOD_ALT: u32 = 0x1;
pub const MOD_CONTROL: u32 = 0x2;
pub const MOD_SHIFT: u32 = 0x4;

/// Virtual-key codes of the hotkey candidates.
pub const VK_8: u16 = 0x38;
pub const VK_9: u16 = 0x39;
pub const VK_F8: u16 = 0x77;
pub const VK_F9: u16 = 0x78;
pub const VK_OEM_3: u16 = 0xC0;

/// A global hotkey to try registering: its display name, modifier flags
/// and key.
#[derive(Clone, Copy, Debug)]
pub struct HotkeyCandidate {
    pub name: &'static str,
    pub modifiers: u32,
    pub vk: u16,
}

pub open spec fn candidate_keys(c: Seq<HotkeyCandidate>) -> Seq<(u32, u16)> {
    c.map_values(|h: HotkeyCandidate| (h.modifiers, h.vk))
}

pub open spec fn candidate_names(c: Seq<HotkeyCandidate>) -> Seq<Seq<char>> {
    c.map_values(|h: HotkeyCandidate| h.name@)
}

/// The dictation toggle's candidates, in order of preference: digit and
/// function keys first (their codes do not depend on the keyboard
/// layout), Ctrl+Shift before Ctrl+Alt (Ctrl+Alt is AltGr on many
/// layouts). Ctrl+Shift+Space is not among them: it is the push-to-talk
/// chord.
pub open spec fn dictation_candidate_keys() -> Seq<(u32, u16)> {
    seq![
        (MOD_CONTROL | MOD_SHIFT, VK_8),
        (MOD_CONTROL | MOD_SHIFT, VK_F9),
        (MOD_CONTROL | MOD_SHIFT, VK_OEM_3),
        (MOD_CONTROL | MOD_ALT, VK_OEM_3),
        (MOD_CONTROL | MOD_ALT, crate::keys::VK_SPACE),
    ]
}

/// The command-mode toggle's candidates, in order of preference.
pub open spec fn command_candidate_keys() -> Seq<(u32, u16)> {
    seq![(MOD_CONTROL | MOD_SHIFT, VK_9), (MOD_CONTROL | MOD_ALT, VK_9), (MOD_CONTROL | MOD_SHIFT, VK_F8)]
}

fn candidate(name: &'static str, modifiers: u32, vk: u16) -> (c: HotkeyCandidate)
    ensures
        c.name == name,
        c.modifiers == modifiers,
        c.vk == vk,
{
    HotkeyCandidate { name, modifiers, vk }
}

/// Hotkeys to try for toggling dictation, first free one wins.
pub fn dictation_hotkey_candidates() -> (r: Vec<HotkeyCandidate>)
    ensures
        candidate_keys(r@) == dictation_candidate_keys(),
        candidate_names(r@) == seq![
            "Ctrl+Shift+8"@,
            "Ctrl+Shift+F9"@,
            "Ctrl+Shift+`"@,
            "Ctrl+Alt+`"@,
            "Ctrl+Alt+Space"@,
        ],
{
    let r = vec![
        candidate("Ctrl+Shift+8", MOD_CONTROL | MOD_SHIFT, VK_8),
        candidate("Ctrl+Shift+F9", MOD_CONTROL | MOD_SHIFT, VK_F9),
        candidate("Ctrl+Shift+`", MOD_CONTROL | MOD_SHIFT, VK_OEM_3),
        candidate("Ctrl+Alt+`", MOD_CONTROL | MOD_ALT, VK_OEM_3),
        candidate("Ctrl+Alt+Space", MOD_CONTROL | MOD_ALT, crate::keys::VK_SPACE),
    ];
    assert(candidate_keys(r@) =~= dictation_candidate_keys());
    assert(candidate_names(r@) =~= seq![
        "Ctrl+Shift+8"@,
        "Ctrl+Shift+F9"@,
        "Ctrl+Shift+`"@,
        "Ctrl+Alt+`"@,
        "Ctrl+Alt+Space"@,
    ]);
    r
}

/// Hotkeys to try for toggling command mode, first free one wins.
pub fn command_hotkey_candidates() -> (r: Vec<HotkeyCandidate>)
    ensures
        candidate_keys(r@) == command_candidate_keys(),
        candidate_names(r@) == seq!["Ctrl+Shift+9"@, "Ctrl+Alt+9"@, "Ctrl+Shift+F8"@],
{
    let r = vec![
        candidate("Ctrl+Shift+9", MOD_CONTROL | MOD_SHIFT, VK_9),
        candidate("Ctrl+Alt+9", MOD_CONTROL | MOD_ALT, VK_9),
        candidate("Ctrl+Shift+F8", MOD_CONTROL | MOD_SHIFT, VK_F8),
    ];
    assert(candidate_keys(r@) =~= command_candidate_keys());
    assert(candidate_names(r@) =~= seq!["Ctrl+Shift+9"@, "Ctrl+Alt+9"@, "Ctrl+Shift+F8"@]);
    r
}

/// No toggle candidate is the push-to-talk chord, and the dictation and
/// command toggles never share a key combination, so whichever candidates
/// get registered, every hotkey means one thing.
pub proof fn lemma_hotkeys_are_unambiguous()
    ensures
        !dictation_candidate_keys().contains((MOD_CONTROL | MOD_SHIFT, crate::keys::VK_SPACE)),
        !command_candidate_keys().contains((MOD_CONTROL | MOD_SHIFT, crate::keys::VK_SPACE)),
        forall|i: int, j: int|
            0 <= i < dictation_candidate_keys().len() && 0 <= j < command_candidate_keys().len()
                ==> dictation_candidate_keys()[i] != command_candidate_keys()[j],
{
    assert(MOD_CONTROL | MOD_SHIFT == 6u32) by (bit_vector);
    assert(MOD_CONTROL | MOD_ALT == 3u32) by (bit_vector);
    let d = dictation_candidate_keys();
    let c = command_candidate_keys();
    let ptt = (MOD_CONTROL | MOD_SHIFT, crate::keys::VK_SPACE);
    assert(forall|i: int| 0 <= i < d.len() ==> d[i] != ptt);
    assert(forall|i: int| 0 <= i < c.len() ==> c[i] != ptt);
}

} // verus!
