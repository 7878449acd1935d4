//! Command Mode: a hands-free editing mode distinct from prose dictation.
//!
//! When a Command Mode recording stops, the transcribed text is matched
//! against a user's custom phrases first and then a small fixed set of
//! built-in phrases by plain substring checks, most specific phrase first;
//! anything unrecognized gives no action, since a wrong edit is worse than
//! none. A recognized action becomes a short list of key combinations.
//!
//! Custom bindings come from `custom_commands.json` (for instance
//! `{"commands": [{"phrase": "save file", "modifiers": ["ctrl"], "key": "s"}]}`);
//! malformed entries are skipped one by one, and the valid ones are tried
//! longest phrase first so that a specific phrase is not shadowed by a
//! shorter one contained in it.

use crate::json::{
    json_array, json_field, json_parse, json_str, json_text, member_elements, member_text, parsed_json};
use crate::keys::{
    key_code_of, VK_BACK, VK_CONTROL, VK_DOWN, VK_END, VK_HOME, VK_LEFT, VK_RETURN, VK_SHIFT, VK_UP,
    VK_Y, VK_Z, modifier_code_of, modifier_from_name, vk_from_name};
use crate::text::{chars_of, contains_chars, contains_str, lowercase_of, occurs_in, to_lowercase};
use vstd::prelude::*;

verus! {

/// An editing action recognized from a spoken command.
#[derive(Debug, Clone, PartialEq)]
pub enum Action {
    Undo,
    Redo,
    SelectWord,
    SelectSentence,
    SelectParagraph,
    DeleteWord,
    DeleteSentence,
    DeleteParagraph,
    NewLine,
    GoToStart,
    GoToEnd,
    /// A user-defined binding: (modifier keys, key).
    Custom(Vec<u16>, u16),
}

/// An action, with the custom binding's modifiers as a sequence.
pub enum ActionView {
    Undo,
    Redo,
    SelectWord,
    SelectSentence,
    SelectParagraph,
    DeleteWord,
    DeleteSentence,
    DeleteParagraph,
    NewLine,
    GoToStart,
    GoToEnd,
    Custom(Seq<u16>, u16),
}

impl View for Action {
    type V = ActionView;

    open spec fn view(&self) -> ActionView {
        match self {
            Action::Undo => ActionView::Undo,
            Action::Redo => ActionView::Redo,
            Action::SelectWord => ActionView::SelectWord,
            Action::SelectSentence => ActionView::SelectSentence,
            Action::SelectParagraph => ActionView::SelectParagraph,
            Action::DeleteWord => ActionView::DeleteWord,
            Action::DeleteSentence => ActionView::DeleteSentence,
            Action::DeleteParagraph => ActionView::DeleteParagraph,
            Action::NewLine => ActionView::NewLine,
            Action::GoToStart => ActionView::GoToStart,
            Action::GoToEnd => ActionView::GoToEnd,
            Action::Custom(m, k) => ActionView::Custom(m@, *k),
        }
    }
}

/// A validated custom binding: its lowercased phrase and its key combo.
#[derive(Debug, Clone)]
pub struct CustomCommand {
    pub phrase: String,
    pub modifiers: Vec<u16>,
    pub key: u16,
}

pub struct CustomCommandView {
    pub phrase: Seq<char>,
    pub modifiers: Seq<u16>,
    pub key: u16,
}

impl View for CustomCommand {
    type V = CustomCommandView;

    open spec fn view(&self) -> CustomCommandView {
        CustomCommandView { phrase: self.phrase@, modifiers: self.modifiers@, key: self.key }
    }
}

/// One entry of the custom command file as read: each field is present
/// only when the entry holds a string (or, for `modifiers`, an array) there;
/// each element of `modifiers` is present only when it is a string.
#[derive(Debug, Clone)]
pub struct RawCommandEntry {
    pub phrase: Option<String>,
    pub key: Option<String>,
    pub modifiers: Option<Vec<Option<String>>>,
}

/// The modifier codes named by an entry's `modifiers` array, in order;
/// unknown names and non-strings are dropped.
pub open spec fn modifier_codes(ms: Option<Vec<Option<String>>>) -> Seq<u16> {
    match ms {
        Some(v) => v@.filter_map(modifier_code_fn()),
        None => Seq::empty(),
    }
}

/// The code of one element of a `modifiers` array.
pub open spec fn modifier_element_code(m: Option<String>) -> Option<u16> {
    match m {
        Some(s) => modifier_code_of(lowercase_of(s@)),
        None => None,
    }
}

pub open spec fn modifier_code_fn() -> spec_fn(Option<String>) -> Option<u16> {
    |m: Option<String>| modifier_element_code(m)
}

/// The binding an entry stands for, if it has a phrase and a known key.
pub open spec fn entry_command(e: RawCommandEntry) -> Option<CustomCommandView> {
    match (e.phrase, e.key) {
        (Some(p), Some(k)) => match key_code_of(lowercase_of(k@)) {
            Some(code) => Some(
                CustomCommandView {
                    phrase: lowercase_of(p@),
                    modifiers: modifier_codes(e.modifiers),
                    key: code,
                },
            ),
            None => None,
        },
        _ => None,
    }
}

pub open spec fn entry_command_fn() -> spec_fn(RawCommandEntry) -> Option<CustomCommandView> {
    |e: RawCommandEntry| entry_command(e)
}

/// The valid entries' bindings, in file order.
pub open spec fn valid_commands(es: Seq<RawCommandEntry>) -> Seq<CustomCommandView> {
    es.filter_map(entry_command_fn())
}

/// Sort key: the phrase's length in UTF-8 bytes.
pub open spec fn phrase_key(c: CustomCommandView) -> usize {
    encode_utf8_len(c.phrase)
}

pub open spec fn encode_utf8_len(s: Seq<char>) -> usize {
    vstd::utf8::encode_utf8(s).len() as usize
}

pub open spec fn with_key(len: usize) -> spec_fn(CustomCommandView) -> bool {
    |c: CustomCommandView| phrase_key(c) == len
}

/// Longest phrase first.
pub open spec fn sorted_longest_first(s: Seq<CustomCommandView>) -> bool {
    forall|i: int, j: int| 0 <= i < j < s.len() ==> phrase_key(s[i]) >= phrase_key(s[j])
}

/// `a` and `b` hold, for every phrase length, the same commands of that
/// length in the same order: together with `sorted_longest_first(a)` this
/// says that `a` is the stable sort of `b` by decreasing phrase length.
pub open spec fn same_per_length(a: Seq<CustomCommandView>, b: Seq<CustomCommandView>) -> bool {
    forall|len: usize| #[trigger] a.filter(with_key(len)) == b.filter(with_key(len))
}

pub open spec fn command_views(s: Seq<CustomCommand>) -> Seq<CustomCommandView> {
    s.map_values(|c: CustomCommand| c@)
}

/// The command list built from the file's entries: the valid entries'
/// bindings, stably sorted longest phrase first.
pub open spec fn commands_built_from(r: Seq<CustomCommand>, es: Seq<RawCommandEntry>) -> bool {
    &&& sorted_longest_first(command_views(r))
    &&& same_per_length(command_views(r), valid_commands(es))
}

/// Lowercased modifier codes of an entry's `modifiers` array.
fn modifiers_of(ms: &Option<Vec<Option<String>>>) -> (r: Vec<u16>)
    ensures
        r@ == modifier_codes(*ms),
{
    let mut out: Vec<u16> = Vec::new();
    match ms {
        None => {},
        Some(v) => {
            let ghost f = modifier_code_fn();
            let mut i: usize = 0;
            while i < v.len()
                invariant
                    i <= v.len(),
                    f == modifier_code_fn(),
                    out@ == v@.take(i as int).filter_map(f),
                decreases v.len() - i,
            {
                assert(v@.take(i + 1).drop_last() =~= v@.take(i as int));
                assert(v@.take(i + 1).last() == v@[i as int]);
                let ghost before = out@;
                match &v[i] {
                    Some(s) => {
                        match modifier_from_name(s.as_str()) {
                            Some(code) => {
                                out.push(code);
                            },
                            None => {},
                        }
                    },
                    None => {},
                }
                proof {
                    let t = v@.take(i + 1);
                    assert(f(t.last()) == modifier_element_code(v@[i as int]));
                    assert(before == t.drop_last().filter_map(f));
                    assert(t.filter_map(f) == match f(t.last()) {
                        Some(x) => t.drop_last().filter_map(f) + seq![x],
                        None => t.drop_last().filter_map(f),
                    });
                    assert(out@ =~= t.filter_map(f));
                }
                i = i + 1;
            }
            assert(v@.take(i as int) =~= v@);
        },
    }
    out
}

/// Why an entry of the command file is skipped.
#[derive(Clone, Copy, PartialEq, Eq, Debug, Structural)]
pub enum EntryProblem {
    /// No string `phrase`.
    MissingPhrase,
    /// A phrase but no string `key`.
    MissingKey,
    /// A phrase and a key that names no known key.
    UnknownKey,
}

/// The reason an entry is skipped, checked in this order; `None` for a
/// valid entry.
pub open spec fn entry_problem_of(e: RawCommandEntry) -> Option<EntryProblem> {
    match (e.phrase, e.key) {
        (None, _) => Some(EntryProblem::MissingPhrase),
        (Some(_), None) => Some(EntryProblem::MissingKey),
        (Some(_), Some(k)) => if key_code_of(lowercase_of(k@)) is None {
            Some(EntryProblem::UnknownKey)
        } else {
            None
        },
    }
}

/// Why the entry would be skipped when the command list is built, so that
/// the skip can be reported; `None` when it is kept.
pub fn entry_problem(e: &RawCommandEntry) -> (r: Option<EntryProblem>)
    ensures
        r == entry_problem_of(*e),
        r is None <==> entry_command(*e) is Some,
{
    match (&e.phrase, &e.key) {
        (None, _) => Some(EntryProblem::MissingPhrase),
        (Some(_), None) => Some(EntryProblem::MissingKey),
        (Some(_), Some(k)) => match vk_from_name(k.as_str()) {
            Some(_) => None,
            None => Some(EntryProblem::UnknownKey),
        },
    }
}

/// The binding an entry stands for, if it has a phrase and a known key.
fn command_of_entry(e: &RawCommandEntry) -> (r: Option<CustomCommand>)
    ensures
        match r {
            Some(c) => entry_command(*e) == Some(c@),
            None => entry_command(*e) is None,
        },
{
    match (&e.phrase, &e.key) {
        (Some(p), Some(k)) => match vk_from_name(k.as_str()) {
            Some(code) => {
                let phrase = to_lowercase(p.as_str());
                let modifiers = modifiers_of(&e.modifiers);
                Some(CustomCommand { phrase, modifiers, key: code })
            },
            None => None,
        },
        _ => None,
    }
}

/// Inserting `x` at `p` into a list sorted longest first, where every
/// element before `p` is at least as long as `x` and every element from
/// `p` on is shorter, keeps the list sorted and appends `x` to the group of
/// its own length, leaving every other length's group unchanged.
proof fn lemma_insert_by_length(s: Seq<CustomCommandView>, p: int, x: CustomCommandView)
    requires
        0 <= p <= s.len(),
        sorted_longest_first(s),
        forall|k: int| 0 <= k < p ==> phrase_key(s[k]) >= phrase_key(x),
        forall|k: int| p <= k < s.len() ==> phrase_key(s[k]) < phrase_key(x),
    ensures
        sorted_longest_first(s.insert(p, x)),
        forall|len: usize|
            #[trigger] s.insert(p, x).filter(with_key(len)) == if phrase_key(x) == len {
                s.filter(with_key(len)).push(x)
            } else {
                s.filter(with_key(len))
            },
{
    broadcast use vstd::seq_lib::group_seq_properties;

    let t = s.insert(p, x);
    assert forall|i: int, j: int| 0 <= i < j < t.len() implies phrase_key(t[i]) >= phrase_key(
        t[j],
    ) by {
        if j < p {
            assert(t[i] == s[i] && t[j] == s[j]);
        } else if j == p {
            assert(t[i] == s[i]);
        } else if i < p {
            assert(t[i] == s[i] && t[j] == s[j - 1]);
        } else if i == p {
            assert(t[j] == s[j - 1]);
        } else {
            assert(t[i] == s[i - 1] && t[j] == s[j - 1]);
        }
    }
    let a = s.take(p);
    let b = s.skip(p);
    assert(t =~= a + seq![x] + b);
    assert(s =~= a + b);
    assert forall|len: usize|
        #[trigger] s.insert(p, x).filter(with_key(len)) == if phrase_key(x) == len {
            s.filter(with_key(len)).push(x)
        } else {
            s.filter(with_key(len))
        } by {
        let pred = with_key(len);
        Seq::filter_distributes_over_add(a + seq![x], b, pred);
        Seq::filter_distributes_over_add(a, seq![x], pred);
        Seq::filter_distributes_over_add(a, b, pred);
        Seq::<CustomCommandView>::empty().lemma_filter_push(x, pred);
        assert(Seq::<CustomCommandView>::empty().push(x) =~= seq![x]);
        assert(Seq::<CustomCommandView>::empty().filter(pred) =~= Seq::empty()) by {
            reveal(Seq::filter);
        }
        if phrase_key(x) == len {
            assert(b.all(|y: CustomCommandView| !pred(y)));
            b.lemma_all_neg_filter_empty(pred);
            assert(b.filter(pred) =~= Seq::empty());
            assert(t.filter(pred) =~= a.filter(pred) + seq![x]);
            assert(s.filter(pred) =~= a.filter(pred));
        } else {
            assert(t.filter(pred) =~= a.filter(pred) + b.filter(pred));
        }
    }
}

/// Builds the custom command list from the file's entries: entries without
/// a phrase or with a missing or unknown key are skipped, phrases and key
/// names are taken without regard to case, and the result is ordered
/// longest phrase (in UTF-8 bytes) first, equal lengths keeping file order.
pub fn build_custom_commands(entries: &Vec<RawCommandEntry>) -> (r: Vec<CustomCommand>)
    ensures
        commands_built_from(r@, entries@),
{
    let mut out: Vec<CustomCommand> = Vec::new();
    let mut i: usize = 0;
    assert(valid_commands(entries@.take(0)) =~= command_views(out@));
    while i < entries.len()
        invariant
            i <= entries.len(),
            sorted_longest_first(command_views(out@)),
            same_per_length(command_views(out@), valid_commands(entries@.take(i as int))),
        decreases entries.len() - i,
    {
        let ghost before = command_views(out@);
        let ghost f = entry_command_fn();
        let ghost t = entries@.take(i + 1);
        assert(t.drop_last() =~= entries@.take(i as int));
        assert(t.last() == entries@[i as int]);
        assert(valid_commands(t) == match f(t.last()) {
            Some(v) => t.drop_last().filter_map(f) + seq![v],
            None => t.drop_last().filter_map(f),
        });
        match command_of_entry(&entries[i]) {
            Some(c) => {
                let k = c.phrase.as_str().len();
                let mut p: usize = 0;
                while p < out.len() && out[p].phrase.as_str().len() >= k
                    invariant
                        p <= out.len(),
                        before == command_views(out@),
                        sorted_longest_first(before),
                        k == phrase_key(c@),
                        forall|q: int| 0 <= q < p ==> phrase_key(before[q]) >= k,
                    decreases out.len() - p,
                {
                    p = p + 1;
                }
                proof {
                    assert forall|q: int| p <= q < before.len() implies phrase_key(before[q]) < k by {
                        assert(phrase_key(before[p as int]) < k);
                        assert(phrase_key(before[p as int]) >= phrase_key(before[q]));
                    }
                    lemma_insert_by_length(before, p as int, c@);
                }
                let ghost cv = c@;
                out.insert(p, c);
                proof {
                    assert(command_views(out@) =~= before.insert(p as int, cv));
                    assert(valid_commands(t) =~= valid_commands(entries@.take(i as int)) + seq![cv]);
                    assert forall|len: usize|
                        #[trigger] command_views(out@).filter(with_key(len)) == valid_commands(
                            t,
                        ).filter(with_key(len)) by {
                        valid_commands(entries@.take(i as int)).lemma_filter_push(cv, with_key(len));
                        assert(valid_commands(entries@.take(i as int)).push(cv) =~= valid_commands(t));
                    }
                }
            },
            None => {
                assert(valid_commands(t) =~= valid_commands(entries@.take(i as int)));
            },
        }
        i = i + 1;
    }
    assert(entries@.take(i as int) =~= entries@);
    out
}

pub open spec fn opt_string_view(s: Option<String>) -> Option<Seq<char>> {
    match s {
        Some(t) => Some(t@),
        None => None,
    }
}

/// `e` holds, as plain values, what the JSON value `v` holds as strings
/// under `phrase` and `key`, and as an array under `modifiers` (each
/// element present as a string or absent).
pub open spec fn entry_read_from(e: RawCommandEntry, v: serde_json::Value) -> bool {
    &&& opt_string_view(e.phrase) == member_text(v, "phrase"@)
    &&& opt_string_view(e.key) == member_text(v, "key"@)
    &&& match (e.modifiers, member_elements(v, "modifiers"@)) {
        (Some(ms), Some(vs)) => ms@.len() == vs.len() && forall|k: int|
            0 <= k < vs.len() ==> opt_string_view(#[trigger] ms@[k]) == json_text(vs[k]),
        (None, None) => true,
        _ => false,
    }
}

/// The elements of the document's `commands` array, where the text parses
/// and holds one.
pub open spec fn command_array(text: Seq<char>) -> Option<Seq<serde_json::Value>> {
    match parsed_json(text) {
        Some(doc) => member_elements(doc, "commands"@),
        None => None,
    }
}

/// `es` are the entries of the file's `commands` array, in order, each
/// read as plain values; none where the text has no such array.
pub open spec fn entries_read_from(es: Seq<RawCommandEntry>, text: Seq<char>) -> bool {
    match command_array(text) {
        Some(vs) => es.len() == vs.len() && forall|i: int|
            0 <= i < vs.len() ==> entry_read_from(#[trigger] es[i], vs[i]),
        None => es.len() == 0,
    }
}

/// A string-valued member of a JSON object, copied out.
fn string_member(v: &serde_json::Value, key: &str) -> (r: Option<String>)
    ensures
        opt_string_view(r) == member_text(*v, key@),
{
    match json_field(v, key) {
        Some(m) => match json_str(m) {
            Some(s) => Some(s.to_owned()),
            None => None,
        },
        None => None,
    }
}

/// One entry of the command file, read as plain values.
fn raw_entry(v: &serde_json::Value) -> (r: RawCommandEntry)
    ensures
        entry_read_from(r, *v),
{
    let phrase = string_member(v, "phrase");
    let key = string_member(v, "key");
    let modifiers = match json_field(v, "modifiers") {
        Some(m) => match json_array(m) {
            Some(arr) => {
                let mut names: Vec<Option<String>> = Vec::new();
                let mut i: usize = 0;
                while i < arr.len()
                    invariant
                        i <= arr.len(),
                        names@.len() == i,
                        forall|k: int|
                            0 <= k < i ==> opt_string_view(#[trigger] names@[k]) == json_text(
                                arr@[k],
                            ),
                    decreases arr.len() - i,
                {
                    let name = match json_str(&arr[i]) {
                        Some(s) => Some(s.to_owned()),
                        None => None,
                    };
                    names.push(name);
                    i = i + 1;
                }
                Some(names)
            },
            None => None,
        },
        None => None,
    };
    RawCommandEntry { phrase, key, modifiers }
}

/// Reads the custom command file's text: the entries of its `commands`
/// array as plain values. Invalid JSON, or a document without such an
/// array, gives no entries.
pub fn read_command_entries(raw: &str) -> (r: Vec<RawCommandEntry>)
    ensures
        entries_read_from(r@, raw@),
{
    let mut out: Vec<RawCommandEntry> = Vec::new();
    let doc = match json_parse(raw) {
        Some(d) => d,
        None => return out,
    };
    let entries = match json_field(&doc, "commands") {
        Some(c) => match json_array(c) {
            Some(a) => a,
            None => return out,
        },
        None => return out,
    };
    let mut i: usize = 0;
    while i < entries.len()
        invariant
            i <= entries.len(),
            out@.len() == i,
            forall|k: int| 0 <= k < i ==> entry_read_from(#[trigger] out@[k], entries@[k]),
        decreases entries.len() - i,
    {
        out.push(raw_entry(&entries[i]));
        i = i + 1;
    }
    out
}

/// Loads custom commands from the text of `custom_commands.json`: the
/// entries read from the file, validated and ordered longest phrase first
/// (see `build_custom_commands`).
pub fn parse_custom_commands(raw: &str) -> (r: Vec<CustomCommand>)
    ensures
        exists|es: Seq<RawCommandEntry>| entries_read_from(es, raw@) && commands_built_from(r@, es),
{
    let entries = read_command_entries(raw);
    build_custom_commands(&entries)
}

/// The built-in command set, most specific phrase first, on lowercased text.
pub open spec fn builtin_action(t: Seq<char>) -> Option<ActionView> {
    if occurs_in(t, "select"@) && occurs_in(t, "paragraph"@) {
        Some(ActionView::SelectParagraph)
    } else if occurs_in(t, "select"@) && occurs_in(t, "sentence"@) {
        Some(ActionView::SelectSentence)
    } else if occurs_in(t, "select"@) && occurs_in(t, "word"@) {
        Some(ActionView::SelectWord)
    } else if occurs_in(t, "delete"@) && occurs_in(t, "paragraph"@) {
        Some(ActionView::DeleteParagraph)
    } else if occurs_in(t, "delete"@) && occurs_in(t, "sentence"@) {
        Some(ActionView::DeleteSentence)
    } else if occurs_in(t, "delete"@) && (occurs_in(t, "word"@) || occurs_in(t, "that"@)) {
        Some(ActionView::DeleteWord)
    } else if occurs_in(t, "undo"@) {
        Some(ActionView::Undo)
    } else if occurs_in(t, "redo"@) {
        Some(ActionView::Redo)
    } else if occurs_in(t, "new line"@) || occurs_in(t, "newline"@) {
        Some(ActionView::NewLine)
    } else if occurs_in(t, "go to start"@) || occurs_in(t, "go to beginning"@) || occurs_in(
        t,
        "beginning"@,
    ) {
        Some(ActionView::GoToStart)
    } else if occurs_in(t, "go to end"@) {
        Some(ActionView::GoToEnd)
    } else {
        None
    }
}

/// The custom command's phrase occurs in the (lowercased) text.
pub open spec fn phrase_hit(t: Seq<char>, c: CustomCommandView) -> bool {
    occurs_in(t, c.phrase)
}

/// `i` is the position of the first custom command whose phrase occurs.
pub open spec fn first_hit(t: Seq<char>, cs: Seq<CustomCommandView>, i: int) -> bool {
    &&& 0 <= i < cs.len()
    &&& phrase_hit(t, cs[i])
    &&& forall|j: int| 0 <= j < i ==> !phrase_hit(t, #[trigger] cs[j])
}

/// The action for lowercased text: the first custom command (in list
/// order) whose phrase occurs in it, otherwise the built-in set.
pub open spec fn command_for(t: Seq<char>, cs: Seq<CustomCommandView>) -> Option<ActionView> {
    if exists|i: int| first_hit(t, cs, i) {
        let i = choose|i: int| first_hit(t, cs, i);
        Some(ActionView::Custom(cs[i].modifiers, cs[i].key))
    } else {
        builtin_action(t)
    }
}

pub open spec fn action_view(r: Option<Action>) -> Option<ActionView> {
    match r {
        Some(a) => Some(a@),
        None => None,
    }
}

/// A copy of a list of key codes.
pub fn copy_keys(v: &Vec<u16>) -> (r: Vec<u16>)
    ensures
        r@ == v@,
{
    let mut r: Vec<u16> = Vec::new();
    let mut i: usize = 0;
    while i < v.len()
        invariant
            i <= v.len(),
            r@ == v@.take(i as int),
        decreases v.len() - i,
    {
        r.push(v[i]);
        i = i + 1;
        assert(r@ =~= v@.take(i as int));
    }
    assert(v@.take(i as int) =~= v@);
    r
}

/// The built-in command for lowercased text.
fn match_builtin(t: &Vec<char>) -> (r: Option<Action>)
    ensures
        action_view(r) == builtin_action(t@),
{
    if contains_str(t, "select") && contains_str(t, "paragraph") {
        Some(Action::SelectParagraph)
    } else if contains_str(t, "select") && contains_str(t, "sentence") {
        Some(Action::SelectSentence)
    } else if contains_str(t, "select") && contains_str(t, "word") {
        Some(Action::SelectWord)
    } else if contains_str(t, "delete") && contains_str(t, "paragraph") {
        Some(Action::DeleteParagraph)
    } else if contains_str(t, "delete") && contains_str(t, "sentence") {
        Some(Action::DeleteSentence)
    } else if contains_str(t, "delete") && (contains_str(t, "word") || contains_str(t, "that")) {
        Some(Action::DeleteWord)
    } else if contains_str(t, "undo") {
        Some(Action::Undo)
    } else if contains_str(t, "redo") {
        Some(Action::Redo)
    } else if contains_str(t, "new line") || contains_str(t, "newline") {
        Some(Action::NewLine)
    } else if contains_str(t, "go to start") || contains_str(t, "go to beginning")
        || contains_str(t, "beginning") {
        Some(Action::GoToStart)
    } else if contains_str(t, "go to end") {
        Some(Action::GoToEnd)
    } else {
        None
    }
}

/// Matches transcribed text, without regard to case, against the custom
/// commands first (in list order) and then the built-in set. Anything
/// unrecognized gives `None`: no action is always safer than a guess.
pub fn match_command(text: &str, custom: &Vec<CustomCommand>) -> (r: Option<Action>)
    ensures
        action_view(r) == command_for(lowercase_of(text@), command_views(custom@)),
{
    let lower = to_lowercase(text);
    let t = chars_of(lower.as_str());
    let ghost cs = command_views(custom@);
    let mut i: usize = 0;
    while i < custom.len()
        invariant
            i <= custom.len(),
            cs == command_views(custom@),
            t@ == lowercase_of(text@),
            forall|j: int| 0 <= j < i ==> !phrase_hit(t@, #[trigger] cs[j]),
        decreases custom.len() - i,
    {
        let phrase = chars_of(custom[i].phrase.as_str());
        if contains_chars(&t, &phrase) {
            let modifiers = copy_keys(&custom[i].modifiers);
            proof {
                assert(cs[i as int] == custom@[i as int]@);
                assert(first_hit(t@, cs, i as int));
                let k = choose|k: int| first_hit(t@, cs, k);
                if k < i {
                    assert(phrase_hit(t@, cs[k]));
                } else if k > i {
                    assert(!phrase_hit(t@, cs[i as int]));
                }
                assert(k == i);
            }
            return Some(Action::Custom(modifiers, custom[i].key));
        }
        proof {
            assert(cs[i as int] == custom@[i as int]@);
        }
        i = i + 1;
    }
    proof {
        assert(!exists|k: int| first_hit(t@, cs, k));
    }
    match_builtin(&t)
}

/// A key combination: modifiers held down around one key tap.
#[derive(Debug, Clone)]
pub struct Combo {
    pub modifiers: Vec<u16>,
    pub key: u16,
}

impl View for Combo {
    type V = (Seq<u16>, u16);

    open spec fn view(&self) -> (Seq<u16>, u16) {
        (self.modifiers@, self.key)
    }
}

/// The key combinations an action is carried out with, in order. Sentence
/// and paragraph actions are approximations: line start/end selection, and
/// Ctrl+Up/Down as the closest common paragraph motion.
pub open spec fn combos_for(a: ActionView) -> Seq<(Seq<u16>, u16)> {
    match a {
        ActionView::Undo => seq![(seq![VK_CONTROL], VK_Z)],
        ActionView::Redo => seq![(seq![VK_CONTROL], VK_Y)],
        ActionView::SelectWord => seq![(seq![VK_CONTROL, VK_SHIFT], VK_LEFT)],
        ActionView::DeleteWord => seq![(seq![VK_CONTROL], VK_BACK)],
        ActionView::NewLine => seq![(Seq::empty(), VK_RETURN)],
        ActionView::GoToStart => seq![(seq![VK_CONTROL], VK_HOME)],
        ActionView::GoToEnd => seq![(seq![VK_CONTROL], VK_END)],
        ActionView::SelectSentence => seq![(Seq::empty(), VK_HOME), (seq![VK_SHIFT], VK_END)],
        ActionView::DeleteSentence => seq![
            (Seq::empty(), VK_HOME),
            (seq![VK_SHIFT], VK_END),
            (Seq::empty(), VK_BACK),
        ],
        ActionView::SelectParagraph => seq![
            (seq![VK_CONTROL], VK_UP),
            (seq![VK_CONTROL, VK_SHIFT], VK_DOWN),
        ],
        ActionView::DeleteParagraph => seq![
            (seq![VK_CONTROL], VK_UP),
            (seq![VK_CONTROL, VK_SHIFT], VK_DOWN),
            (Seq::empty(), VK_BACK),
        ],
        ActionView::Custom(m, k) => seq![(m, k)],
    }
}

pub open spec fn combo_views(s: Seq<Combo>) -> Seq<(Seq<u16>, u16)> {
    s.map_values(|c: Combo| c@)
}

fn combo(modifiers: Vec<u16>, key: u16) -> (c: Combo)
    ensures
        c@ == (modifiers@, key),
{
    Combo { modifiers, key }
}

/// The key combinations that carry out an action, in the order they are
/// to be sent (each as one batch).
pub fn dispatch(action: &Action) -> (r: Vec<Combo>)
    ensures
        combo_views(r@) == combos_for(action@),
{
    let r = match action {
        Action::Undo => vec![combo(vec![VK_CONTROL], VK_Z)],
        Action::Redo => vec![combo(vec![VK_CONTROL], VK_Y)],
        Action::SelectWord => vec![combo(vec![VK_CONTROL, VK_SHIFT], VK_LEFT)],
        Action::DeleteWord => vec![combo(vec![VK_CONTROL], VK_BACK)],
        Action::NewLine => vec![combo(vec![], VK_RETURN)],
        Action::GoToStart => vec![combo(vec![VK_CONTROL], VK_HOME)],
        Action::GoToEnd => vec![combo(vec![VK_CONTROL], VK_END)],
        Action::SelectSentence => vec![combo(vec![], VK_HOME), combo(vec![VK_SHIFT], VK_END)],
        Action::DeleteSentence => vec![
            combo(vec![], VK_HOME),
            combo(vec![VK_SHIFT], VK_END),
            combo(vec![], VK_BACK),
        ],
        Action::SelectParagraph => vec![
            combo(vec![VK_CONTROL], VK_UP),
            combo(vec![VK_CONTROL, VK_SHIFT], VK_DOWN),
        ],
        Action::DeleteParagraph => vec![
            combo(vec![VK_CONTROL], VK_UP),
            combo(vec![VK_CONTROL, VK_SHIFT], VK_DOWN),
            combo(vec![], VK_BACK),
        ],
        Action::Custom(m, k) => vec![combo(copy_keys(m), *k)],
    };
    assert(combo_views(r@) =~~= combos_for(action@));
    r
}

/// Some custom command's phrase occurs in the text.
pub open spec fn some_phrase_hit(t: Seq<char>, cs: Seq<CustomCommandView>) -> bool {
    exists|i: int| 0 <= i < cs.len() && #[trigger] phrase_hit(t, cs[i])
}

proof fn lemma_first_hit_exists(t: Seq<char>, cs: Seq<CustomCommandView>, i: int)
    requires
        0 <= i < cs.len(),
        phrase_hit(t, cs[i]),
    ensures
        exists|k: int| first_hit(t, cs, k),
    decreases i,
{
    if exists|j: int| 0 <= j < i && phrase_hit(t, #[trigger] cs[j]) {
        let j = choose|j: int| 0 <= j < i && phrase_hit(t, #[trigger] cs[j]);
        lemma_first_hit_exists(t, cs, j);
    } else {
        assert(first_hit(t, cs, i));
    }
}

/// Custom commands are checked before the built-in set: whenever some
/// custom phrase occurs in the text, the result is a custom binding (so a
/// user's phrase overrides a built-in one), namely the first such one.
pub proof fn lemma_custom_commands_take_priority(t: Seq<char>, cs: Seq<CustomCommandView>)
    requires
        some_phrase_hit(t, cs),
    ensures
        exists|i: int|
            first_hit(t, cs, i) && command_for(t, cs) == Some(
                ActionView::Custom(cs[i].modifiers, cs[i].key),
            ),
{
    let i = choose|i: int| 0 <= i < cs.len() && #[trigger] phrase_hit(t, cs[i]);
    lemma_first_hit_exists(t, cs, i);
}

/// Without a custom hit, the text gives no action exactly when it
/// contains none of the built-in phrases' cue words.
pub proof fn lemma_unrecognized_is_none(t: Seq<char>, cs: Seq<CustomCommandView>)
    requires
        !some_phrase_hit(t, cs),
    ensures
        command_for(t, cs) is None <==> !(occurs_in(t, "select"@) && (occurs_in(t, "paragraph"@)
            || occurs_in(t, "sentence"@) || occurs_in(t, "word"@)))
            && !(occurs_in(t, "delete"@) && (occurs_in(t, "paragraph"@) || occurs_in(
            t,
            "sentence"@,
        ) || occurs_in(t, "word"@) || occurs_in(t, "that"@))) && !occurs_in(t, "undo"@)
            && !occurs_in(t, "redo"@) && !occurs_in(t, "new line"@) && !occurs_in(t, "newline"@)
            && !occurs_in(t, "go to start"@) && !occurs_in(t, "go to beginning"@) && !occurs_in(
            t,
            "beginning"@,
        ) && !occurs_in(t, "go to end"@),
{
    assert(!exists|k: int| first_hit(t, cs, k));
}

/// The most specific built-in phrase wins: "select ... sentence" selects
/// the sentence even when "word" occurs too, unless "paragraph" does.
pub proof fn lemma_sentence_beats_word(t: Seq<char>, cs: Seq<CustomCommandView>)
    requires
        !some_phrase_hit(t, cs),
        occurs_in(t, "select"@),
        occurs_in(t, "sentence"@),
        !occurs_in(t, "paragraph"@),
    ensures
        command_for(t, cs) == Some(ActionView::SelectSentence),
{
    assert(!exists|k: int| first_hit(t, cs, k));
}

/// Deleting a paragraph or a sentence is recognized whatever else the text
/// says: with no custom phrase in it, text that says "delete" and
/// "paragraph" but not "select" deletes the paragraph, and text that says
/// "delete" and "sentence" but neither "select" nor "paragraph" deletes the
/// sentence, even where "word" or "that" occur too.
pub proof fn lemma_delete_paragraph_and_sentence_beat_word(t: Seq<char>, cs: Seq<CustomCommandView>)
    requires
        !some_phrase_hit(t, cs),
        occurs_in(t, "delete"@),
        !occurs_in(t, "select"@),
    ensures
        occurs_in(t, "paragraph"@) ==> command_for(t, cs) == Some(ActionView::DeleteParagraph),
        occurs_in(t, "sentence"@) && !occurs_in(t, "paragraph"@) ==> command_for(t, cs) == Some(
            ActionView::DeleteSentence,
        ),
{
    assert(!exists|k: int| first_hit(t, cs, k));
}

/// Matching ignores case: texts with the same lowercase mapping give the
/// same action.
pub proof fn lemma_matching_ignores_case(a: Seq<char>, b: Seq<char>, cs: Seq<CustomCommandView>)
    requires
        lowercase_of(a) == lowercase_of(b),
    ensures
        command_for(lowercase_of(a), cs) == command_for(lowercase_of(b), cs),
{
}

/// With a command list built from the file, the custom binding chosen is
/// one with the longest phrase among those occurring in the text, and the
/// earliest in the file among those of that length.
pub proof fn lemma_longest_custom_phrase_wins(
    r: Seq<CustomCommand>,
    es: Seq<RawCommandEntry>,
    t: Seq<char>,
    i: int,
)
    requires
        commands_built_from(r, es),
        first_hit(t, command_views(r), i),
    ensures
        forall|j: int|
            0 <= j < r.len() && phrase_hit(t, #[trigger] command_views(r)[j]) ==> phrase_key(
                command_views(r)[j],
            ) <= phrase_key(command_views(r)[i]),
        forall|j: int|
            0 <= j < r.len() && phrase_hit(t, #[trigger] command_views(r)[j]) && phrase_key(
                command_views(r)[j],
            ) == phrase_key(command_views(r)[i]) ==> i <= j,
{
    let cs = command_views(r);
    assert forall|j: int|
        0 <= j < r.len() && phrase_hit(t, #[trigger] cs[j]) implies phrase_key(cs[j]) <= phrase_key(
        cs[i],
    ) && i <= j by {
        if j < i {
            assert(!phrase_hit(t, cs[j]));
        }
    }
}

proof fn lemma_filter_map_keeps(es: Seq<RawCommandEntry>, i: int)
    requires
        0 <= i < es.len(),
        entry_command(es[i]) is Some,
    ensures
        valid_commands(es).contains(entry_command(es[i])->0),
    decreases es.len(),
{
    let f = entry_command_fn();
    let v = entry_command(es[i])->0;
    if i == es.len() - 1 {
        assert(valid_commands(es) == es.drop_last().filter_map(f) + seq![v]);
        assert(valid_commands(es)[valid_commands(es).len() - 1] == v);
    } else {
        assert(es.drop_last()[i] == es[i]);
        lemma_filter_map_keeps(es.drop_last(), i);
        let k = choose|k: int| 0 <= k < valid_commands(es.drop_last()).len() && valid_commands(es.drop_last())[k] == v;
        match f(es.last()) {
            Some(x) => {
                assert(valid_commands(es) == valid_commands(es.drop_last()) + seq![x]);
                assert(valid_commands(es)[k] == v);
            },
            None => {
                assert(valid_commands(es) == valid_commands(es.drop_last()));
            },
        }
    }
}

/// Malformed entries are skipped one by one: every valid entry of the
/// file is in the built command list, whatever the other entries hold.
pub proof fn lemma_valid_entries_are_kept(r: Seq<CustomCommand>, es: Seq<RawCommandEntry>, i: int)
    requires
        commands_built_from(r, es),
        0 <= i < es.len(),
        entry_command(es[i]) is Some,
    ensures
        command_views(r).contains(entry_command(es[i])->0),
{
    broadcast use vstd::seq_lib::group_seq_properties;

    let v = entry_command(es[i])->0;
    lemma_filter_map_keeps(es, i);
    let valid = valid_commands(es);
    let k = choose|k: int| 0 <= k < valid.len() && valid[k] == v;
    let pred = with_key(phrase_key(v));
    valid.lemma_filter_contains(pred, k);
    assert(command_views(r).filter(pred) == valid.filter(pred));
    command_views(r).lemma_filter_contains_rev(pred, v);
}

} // verus!
