//! Keyboard conventions of the overlays.
//!
//! The *cancel* gesture is one convention across all of them. The cycle keys move the
//! highlighted window: by default `Tab` forward and `Shift+Tab` back, so that both directions
//! live on the *same* key and Shift picks between them; [`CycleKeys`] carries a key per
//! direction and lets them coincide.

use vstd::prelude::*;

use crate::text::{chars_of, same_text};

verus! {

/// The keysym of `Esc`: `xkeysym::Keysym::Escape`, of the crate that client toolkits hand
/// keysyms out with. Trusted: its value.
#[verifier::external_body]
fn escape() -> (keysym: u32)
    ensures
        keysym == 0xff1b,
{
    xkeysym::Keysym::Escape.raw()
}

/// The keysym of `[`: `xkeysym::Keysym::bracketleft`. Trusted: its value.
#[verifier::external_body]
fn bracketleft() -> (keysym: u32)
    ensures
        keysym == 0x5b,
{
    xkeysym::Keysym::bracketleft.raw()
}

/// Whether a keystroke means "cancel": `Esc`, or `[` with Control.
pub open spec fn cancels(keysym: u32, ctrl: bool) -> bool {
    keysym == 0xff1b || (ctrl && keysym == 0x5b)
}

/// True for the keystrokes that mean "cancel / back out one layer".
///
/// That is `Esc`, or the terminal-style `Ctrl+[`, the chord that has sent the same byte since
/// the ASCII days. `keysym` is the raw keysym of the press, `ctrl` the physical Control state
/// at the time of it (xkb leaves the keysym as `bracketleft`; only the modifier tells the two
/// apart).
pub fn is_cancel(keysym: u32, ctrl: bool) -> (cancel: bool)
    ensures
        cancel == (keysym == 0xff1b || (ctrl && keysym == 0x5b)),
        cancel == cancels(keysym, ctrl),
{
    keysym == escape() || (ctrl && keysym == bracketleft())
}

/// A key, by the one name that egui gives it (`Tab`, `Down`, `J`, `Minus`, `1`).
#[derive(Clone, Debug, PartialEq, Eq)]
pub struct Key {
    /// The name.
    pub name: String,
}

/// Which way a keystroke moves the highlight.
#[derive(Clone, Copy, Debug, PartialEq, Eq, Structural)]
pub enum Dir {
    /// To the next window in the list.
    Next,
    /// To the previous one.
    Prev,
}

/// The keys bound to the two cycle directions.
#[derive(Clone, Debug, PartialEq, Eq)]
pub struct CycleKeys {
    /// Advances the highlight.
    pub next: Key,
    /// Retreats it; the same key as `next` in the default `Tab`/`Shift+Tab` setup.
    pub prev: Key,
}

impl Default for CycleKeys {
    fn default() -> (keys: Self)
        ensures
            keys.next.name@ == "Tab"@,
            keys.prev.name@ == "Tab"@,
    {
        CycleKeys { next: Key { name: "Tab".to_owned() }, prev: Key { name: "Tab".to_owned() } }
    }
}

/// The direction of a keystroke: where both directions sit on one key, Shift picks between
/// them; else each key means what it says, and Shift does not matter.
pub open spec fn direction(next: Seq<char>, prev: Seq<char>, key: Seq<char>, shift: bool) -> Option<
    Dir,
> {
    if next == prev {
        if key != next {
            None
        } else if shift {
            Some(Dir::Prev)
        } else {
            Some(Dir::Next)
        }
    } else if key == next {
        Some(Dir::Next)
    } else if key == prev {
        Some(Dir::Prev)
    } else {
        None
    }
}

impl CycleKeys {
    /// Which direction a keystroke cycles, if any. `shift` is the Shift state at the time of
    /// the press.
    pub fn dir(&self, key: &Key, shift: bool) -> (dir: Option<Dir>)
        ensures
            dir == direction(self.next.name@, self.prev.name@, key.name@, shift),
    {
        let is_prev = same_text(key.name.as_str(), self.prev.name.as_str());
        let shared = same_text(self.prev.name.as_str(), self.next.name.as_str());
        if is_prev && (shift || !shared) {
            return Some(Dir::Prev);
        }
        if same_text(key.name.as_str(), self.next.name.as_str()) {
            Some(Dir::Next)
        } else {
            None
        }
    }
}

/// Whether a character has the Unicode property `White_Space`.
pub open spec fn white_space(c: char) -> bool {
    ||| '\u{9}' <= c <= '\u{d}'
    ||| c == ' '
    ||| c == '\u{85}'
    ||| c == '\u{a0}'
    ||| c == '\u{1680}'
    ||| '\u{2000}' <= c <= '\u{200a}'
    ||| c == '\u{2028}'
    ||| c == '\u{2029}'
    ||| c == '\u{202f}'
    ||| c == '\u{205f}'
    ||| c == '\u{3000}'
}

/// Whether a character is whitespace.
pub fn is_white_space(c: char) -> (white: bool)
    ensures
        white == white_space(c),
{
    match c {
        '\u{9}'..='\u{d}' | '\u{2000}'..='\u{200a}' => true,
        ' ' | '\u{85}' | '\u{a0}' | '\u{1680}' | '\u{2028}' | '\u{2029}' | '\u{202f}' => true,
        '\u{205f}' | '\u{3000}' => true,
        _ => false,
    }
}

/// A text without its leading whitespace.
pub open spec fn trim_start(text: Seq<char>) -> Seq<char>
    decreases text.len(),
{
    if text.len() > 0 && white_space(text[0]) {
        trim_start(text.drop_first())
    } else {
        text
    }
}

/// A text without its trailing whitespace.
pub open spec fn trim_end(text: Seq<char>) -> Seq<char>
    decreases text.len(),
{
    if text.len() > 0 && white_space(text.last()) {
        trim_end(text.drop_last())
    } else {
        text
    }
}

/// A text without whitespace around it.
pub open spec fn trimmed(text: Seq<char>) -> Seq<char> {
    trim_end(trim_start(text))
}

/// Takes the whitespace off both ends of a text.
pub fn trim<'a>(text: &'a str) -> (inner: &'a str)
    ensures
        inner@ == trimmed(text@),
{
    let chars = chars_of(text);
    let mut start: usize = 0;
    assert(text@.skip(0) =~= text@);
    while start < chars.len() && is_white_space(chars[start])
        invariant
            chars@ == text@,
            start <= chars@.len(),
            trim_start(text@) == trim_start(text@.skip(start as int)),
        ensures
            chars@ == text@,
            start <= chars@.len(),
            trim_start(text@) == text@.skip(start as int),
        decreases chars@.len() - start,
    {
        assert(text@.skip(start as int)[0] == chars@[start as int]);
        assert(text@.skip(start as int).drop_first() =~= text@.skip(start + 1));
        start += 1;
    }
    let mut end: usize = chars.len();
    let ghost front = text@.skip(start as int);
    assert(text@.subrange(start as int, end as int) =~= front);
    while start < end && is_white_space(chars[end - 1])
        invariant
            chars@ == text@,
            start <= end <= chars@.len(),
            trim_end(front) == trim_end(text@.subrange(start as int, end as int)),
        ensures
            start <= end <= text@.len(),
            trim_end(front) == text@.subrange(start as int, end as int),
        decreases end - start,
    {
        let ghost here = text@.subrange(start as int, end as int);
        assert(here.last() == chars@[end - 1]);
        assert(here.drop_last() =~= text@.subrange(start as int, end - 1));
        end -= 1;
    }
    text.substring_char(start, end)
}

/// The name of the key that `egui::Key::from_name` finds, or `None` where it finds none.
pub uninterp spec fn egui_key(name: Seq<char>) -> Option<Seq<char>>;

/// Finds a key with `egui::Key::from_name` and names it with `egui::Key::name`. Trusted: the
/// answer depends on the name alone, the name of a key finds that same key again, and `Tab`
/// is the name of a key.
#[verifier::external_body]
fn key_from_name(name: &str) -> (key: Option<&'static str>)
    ensures
        key is Some <==> egui_key(name@) is Some,
        key is Some ==> (key->0)@ == egui_key(name@)->0,
        key is Some ==> egui_key((key->0)@) == Some((key->0)@),
        name@ == "Tab"@ ==> key is Some && (key->0)@ == "Tab"@,
{
    match egui::Key::from_name(name) {
        Some(key) => Some(key.name()),
        None => None,
    }
}

/// Whether a name is `Num` and one decimal digit, as in `Num1`.
pub open spec fn is_digit_name(name: Seq<char>) -> bool {
    &&& name.len() == 4
    &&& name[0] == 'N'
    &&& name[1] == 'u'
    &&& name[2] == 'm'
    &&& '0' <= name[3] <= '9'
}

/// The key that a name stands for: the one that egui finds; or, for `Num0` to `Num9`, the one
/// that egui finds for the digit.
pub open spec fn named_key(name: Seq<char>) -> Option<Seq<char>> {
    match egui_key(name) {
        Some(key) => Some(key),
        None => if is_digit_name(name) {
            egui_key(seq![name[3]])
        } else {
            None
        },
    }
}

/// The digit in a name such as `Num1`.
pub fn digit_in<'a>(name: &'a str) -> (digit: Option<&'a str>)
    ensures
        digit is Some <==> is_digit_name(name@),
        digit is Some ==> (digit->0)@ == seq![name@[3]],
{
    let chars = chars_of(name);
    if chars.len() == 4 && chars[0] == 'N' && chars[1] == 'u' && chars[2] == 'm' && '0' <= chars[3]
        && chars[3] <= '9' {
        let digit = name.substring_char(3, 4);
        assert(digit@ =~= seq![name@[3]]);
        Some(digit)
    } else {
        None
    }
}

/// The outcome of looking a key up: the key, or what a good name looks like.
pub fn key_or_hint(found: Option<&str>) -> (key: Result<Key, String>)
    ensures
        key is Ok <==> found is Some,
        key is Ok ==> (key->Ok_0).name@ == (found->0)@,
        key is Err ==> (key->Err_0)@ == "unknown key (try Tab, Down, j, F5)"@,
{
    match found {
        Some(name) => Ok(Key { name: name.to_owned() }),
        None => Err("unknown key (try Tab, Down, j, F5)".to_owned()),
    }
}

/// Parses a key name, whitespace around it aside.
///
/// egui's own parser, so it takes the variant names (`Tab`, `ArrowDown`, `Num1`) as well as
/// their aliases and bare characters (`Down`, `j`, `1`, `-`).
pub fn parse(name: &str) -> (key: Result<Key, String>)
    ensures
        key is Ok <==> named_key(trimmed(name@)) is Some,
        key is Ok ==> (key->Ok_0).name@ == named_key(trimmed(name@))->0,
        key is Ok ==> named_key((key->Ok_0).name@) == Some((key->Ok_0).name@),
        key is Err ==> (key->Err_0)@ == "unknown key (try Tab, Down, j, F5)"@,
        trimmed(name@) == "Tab"@ ==> key is Ok && (key->Ok_0).name@ == "Tab"@,
{
    let name = trim(name);
    let found = match key_from_name(name) {
        Some(key) => Some(key),
        None => match digit_in(name) {
            Some(digit) => key_from_name(digit),
            None => None,
        },
    };
    key_or_hint(found)
}

/// Where both directions sit on one key, Shift separates them.
pub proof fn law_shift_separates_a_shared_key(key: Seq<char>)
    ensures
        direction(key, key, key, false) == Some(Dir::Next),
        direction(key, key, key, true) == Some(Dir::Prev),
{
}

/// Bound to different keys, each key means what it says, with or without Shift.
pub proof fn law_distinct_keys_mean_what_they_say(next: Seq<char>, prev: Seq<char>, shift: bool)
    requires
        next != prev,
    ensures
        direction(next, prev, next, shift) == Some(Dir::Next),
        direction(next, prev, prev, shift) == Some(Dir::Prev),
{
}

/// A key that is bound to neither direction does not cycle.
pub proof fn law_other_keys_do_not_cycle(
    next: Seq<char>,
    prev: Seq<char>,
    key: Seq<char>,
    shift: bool,
)
    requires
        key != next,
        key != prev,
    ensures
        direction(next, prev, key, shift) is None,
{
}

/// Whether all of a text is whitespace.
pub open spec fn blank(text: Seq<char>) -> bool {
    forall|i: int| 0 <= i < text.len() ==> white_space(#[trigger] text[i])
}

/// Trimming what is trimmed changes nothing.
pub proof fn law_trimming_is_idempotent(text: Seq<char>)
    ensures
        trimmed(trimmed(text)) == trimmed(text),
{
    lemma_trim_start_fixed(text);
    let front = trim_start(text);
    lemma_trim_end_fixed(front);
    let inner = trim_end(front);
    if inner.len() > 0 {
        assert(inner[0] == front[0]);
    }
}

/// Whitespace around a name does not matter, and nothing but it is taken off: a name that
/// neither starts nor ends with whitespace is what trimming leaves of it and whatever
/// whitespace stands around it.
pub proof fn law_only_whitespace_is_trimmed(before: Seq<char>, name: Seq<char>, after: Seq<char>)
    requires
        blank(before),
        blank(after),
        name.len() > 0 ==> !white_space(name[0]) && !white_space(name.last()),
    ensures
        trimmed(before + name + after) == name,
{
    lemma_trim_start_blank(before, name + after);
    assert(before + name + after =~= before + (name + after));
    if name.len() > 0 {
        assert((name + after)[0] == name[0]);
        lemma_trim_end_blank(name, after);
    } else {
        assert(name + after =~= after);
        lemma_trim_start_blank(after, name);
        assert(after + name =~= after);
        assert(name =~= Seq::empty());
    }
}

proof fn lemma_trim_start_blank(before: Seq<char>, rest: Seq<char>)
    requires
        blank(before),
    ensures
        trim_start(before + rest) == trim_start(rest),
    decreases before.len(),
{
    if before.len() == 0 {
        assert(before + rest =~= rest);
    } else {
        assert((before + rest)[0] == before[0]);
        assert((before + rest).drop_first() =~= before.drop_first() + rest);
        assert forall|i: int| 0 <= i < before.drop_first().len() implies white_space(
            #[trigger] before.drop_first()[i],
        ) by {
            assert(before.drop_first()[i] == before[i + 1]);
        }
        lemma_trim_start_blank(before.drop_first(), rest);
    }
}

proof fn lemma_trim_end_blank(rest: Seq<char>, after: Seq<char>)
    requires
        blank(after),
    ensures
        trim_end(rest + after) == trim_end(rest),
    decreases after.len(),
{
    if after.len() == 0 {
        assert(rest + after =~= rest);
    } else {
        assert((rest + after).last() == after.last());
        assert((rest + after).drop_last() =~= rest + after.drop_last());
        assert forall|i: int| 0 <= i < after.drop_last().len() implies white_space(
            #[trigger] after.drop_last()[i],
        ) by {
            assert(after.drop_last()[i] == after[i]);
        }
        lemma_trim_end_blank(rest, after.drop_last());
    }
}

proof fn lemma_trim_start_fixed(text: Seq<char>)
    ensures
        trim_start(text).len() == 0 || !white_space(trim_start(text)[0]),
    decreases text.len(),
{
    if text.len() > 0 && white_space(text[0]) {
        lemma_trim_start_fixed(text.drop_first());
    }
}

proof fn lemma_trim_end_fixed(text: Seq<char>)
    ensures
        trim_end(text).len() == 0 || !white_space(trim_end(text).last()),
        trim_end(text).len() <= text.len(),
        forall|i: int| 0 <= i < trim_end(text).len() ==> #[trigger] trim_end(text)[i] == text[i],
    decreases text.len(),
{
    if text.len() > 0 && white_space(text.last()) {
        lemma_trim_end_fixed(text.drop_last());
    }
}

/// `Esc` cancels whatever Control does, `[` with Control alone, and no other key at all.
pub proof fn law_what_cancels(keysym: u32, ctrl: bool)
    ensures
        cancels(0xff1b, ctrl),
        cancels(0x5b, ctrl) == ctrl,
        keysym != 0xff1b && keysym != 0x5b ==> !cancels(keysym, ctrl),
{
}

/// Control never turns a cancel into something else.
pub proof fn law_control_only_adds_cancels(keysym: u32)
    ensures
        cancels(keysym, false) ==> cancels(keysym, true),
{
}

/// Whitespace is the five controls from tab to carriage return, the space, the next line, the
/// no-break spaces and the spaces and separators of other scripts; nothing else.
pub proof fn law_whitespace_by_code_point(c: char)
    ensures
        white_space(c) <==> {
            let n = c as int;
            9 <= n <= 13 || n == 32 || n == 0x85 || n == 0xa0 || n == 0x1680 || 0x2000 <= n
                <= 0x200a || n == 0x2028 || n == 0x2029 || n == 0x202f || n == 0x205f || n == 0x3000
        },
{
}

/// A name that egui knows stands for the key that egui finds; one that it does not know stands
/// for a key only where it is `Num` and a decimal digit, and then for the key of the digit.
pub proof fn law_names_are_eguis_or_digits(name: Seq<char>, digit: char)
    ensures
        egui_key(name) is Some ==> named_key(name) == egui_key(name),
        '0' <= digit <= '9' && egui_key(seq!['N', 'u', 'm', digit]) is None ==> named_key(
            seq!['N', 'u', 'm', digit],
        ) == egui_key(seq![digit]),
        egui_key(name) is None && named_key(name) is Some ==> exists|d: char|
            #![trigger seq![d]]
            '0' <= d <= '9' && name == seq!['N', 'u', 'm', d] && named_key(name) == egui_key(
                seq![d],
            ),
{
    if egui_key(name) is None && named_key(name) is Some {
        let d = name[3];
        assert(name =~= seq!['N', 'u', 'm', d]);
        assert(named_key(name) == egui_key(seq![d]));
    }
}

} // verus!
