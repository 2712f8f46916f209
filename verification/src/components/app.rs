//! State of the terminal client: the line being edited, the cursor in it,
//! the editing mode and the messages sent so far.
use vstd::prelude::*;
use vstd::utf8::{encode_scalar, encode_utf8};

use crate::framing::lemma_encode_concat;
use crate::json::{Json, string_items};
use crate::models::User;
use crate::payload::{Payload, lemma_store_empty, lemma_store_fresh, string_from};
use crate::text::string_of;

verus! {

/// Whether keys move around (normal) or edit the line (editing).
#[derive(Clone, Copy, Debug, PartialEq, Eq, Structural)]
pub enum InputMode {
    Normal,
    Editing,
}

/// A key the client reacts to.
#[derive(Clone, Copy, Debug)]
pub enum Key {
    Char(char),
    Enter,
    Backspace,
    Left,
    Right,
    Esc,
    Other,
}

/// What the client does after a key.
pub enum KeyOutcome {
    /// Keep running.
    Continue,
    /// Leave the client.
    Quit,
    /// Send this message.
    Submit(String),
}

/// The abstract state of the client.
pub struct AppView {
    pub input: Seq<char>,
    pub cursor: nat,
    pub mode: InputMode,
    pub messages: Seq<Seq<char>>,
}

/// The cursor stands within the line (at most just after its last
/// character).
pub open spec fn cursor_in_line(v: AppView) -> bool {
    v.cursor <= v.input.len()
}

/// The number of bytes of the UTF-8 encoding of a text.
pub open spec fn utf8_len(s: Seq<char>) -> nat {
    encode_utf8(s).len()
}

/// A string holds at most `isize::MAX` bytes: `c` can be typed into a line
/// only while its UTF-8 form stays within that size.
pub open spec fn fits_after_typing(input: Seq<char>, c: char) -> bool {
    utf8_len(input) + encode_scalar(c as u32).len() <= isize::MAX
}

/// The state after moving the cursor one character left, stopping at the
/// start.
pub open spec fn moved_left(v: AppView) -> AppView {
    AppView { cursor: if v.cursor > 0 { (v.cursor - 1) as nat } else { 0 }, ..v }
}

/// The state after moving the cursor one character right, stopping at the
/// end of the line.
pub open spec fn moved_right(v: AppView) -> AppView {
    AppView { cursor: if v.cursor + 1 <= v.input.len() { v.cursor + 1 } else { v.input.len() }, ..v }
}

/// The state after typing `c`: it is inserted at the cursor, which moves
/// past it.
pub open spec fn typed(v: AppView, c: char) -> AppView {
    AppView { input: v.input.insert(v.cursor as int, c), cursor: v.cursor + 1, ..v }
}

/// The state after a backspace: the character before the cursor is removed
/// and the cursor moves left; nothing changes at the start of the line.
pub open spec fn erased(v: AppView) -> AppView {
    if v.cursor == 0 {
        v
    } else {
        AppView {
            input: v.input.take(v.cursor - 1) + v.input.skip(v.cursor as int),
            cursor: (v.cursor - 1) as nat,
            ..v
        }
    }
}

/// The state after sending the line: it joins the messages, and the line
/// and the cursor are cleared.
pub open spec fn submitted(v: AppView) -> AppView {
    AppView { input: Seq::empty(), cursor: 0, messages: v.messages.push(v.input), ..v }
}

/// The client's state.
pub struct App {
    input: Vec<char>,
    character_index: usize,
    input_mode: InputMode,
    messages: Vec<String>,
}

impl View for App {
    type V = AppView;

    closed spec fn view(&self) -> AppView {
        AppView {
            input: self.input@,
            cursor: self.character_index as nat,
            mode: self.input_mode,
            messages: self.messages@.map_values(|m: String| m@),
        }
    }
}

/// The UTF-8 width of a character.
fn utf8_width(c: char) -> (w: usize)
    ensures
        w == encode_scalar(c as u32).len(),
        1 <= w <= 4,
{
    let x = c as u32;
    if x <= 0x7F {
        1
    } else if x <= 0x7FF {
        2
    } else if x <= 0xFFFF {
        proof {
            vstd::utf8::char_is_scalar(c);
        }
        3
    } else {
        4
    }
}

proof fn lemma_utf8_len_push(s: Seq<char>, c: char)
    ensures
        utf8_len(s.push(c)) == utf8_len(s) + encode_scalar(c as u32).len(),
{
    lemma_encode_concat(s, seq![c]);
    assert(s.push(c) =~= s + seq![c]);
    assert(seq![c].drop_first() =~= Seq::<char>::empty());
    assert(seq![c][0] == c);
    assert(encode_utf8(Seq::<char>::empty()) =~= Seq::<u8>::empty());
    assert(encode_utf8(seq![c]) == encode_scalar(c as u32) + encode_utf8(seq![c].drop_first()));
    assert(encode_utf8(seq![c]) =~= encode_scalar(c as u32));
}

proof fn lemma_utf8_len_at_least_len(s: Seq<char>)
    ensures
        s.len() <= utf8_len(s) <= 4 * s.len(),
    decreases s.len(),
{
    if s.len() > 0 {
        lemma_utf8_len_at_least_len(s.drop_last());
        let c = s.last();
        assert(encode_scalar(c as u32).len() <= 4);
        lemma_utf8_len_push(s.drop_last(), s.last());
        assert(s.drop_last().push(s.last()) =~= s);
        vstd::utf8::char_is_scalar(s.last());
    }
}

proof fn lemma_utf8_len_concat(a: Seq<char>, b: Seq<char>)
    ensures
        utf8_len(a + b) == utf8_len(a) + utf8_len(b),
{
    lemma_encode_concat(a, b);
}

proof fn lemma_utf8_len_take(s: Seq<char>, i: int)
    requires
        0 <= i <= s.len(),
    ensures
        utf8_len(s.take(i)) <= utf8_len(s),
{
    lemma_utf8_len_concat(s.take(i), s.skip(i));
    assert(s.take(i) + s.skip(i) =~= s);
}

impl App {
    #[verifier::type_invariant]
    spec fn wf(self) -> bool {
        &&& self.character_index <= self.input@.len()
        &&& utf8_len(self.input@) <= isize::MAX
    }

    /// An empty line in normal mode, with no messages.
    pub fn new() -> (a: App)
        ensures
            a@.input == Seq::<char>::empty(),
            a@.cursor == 0,
            a@.mode == InputMode::Normal,
            a@.messages == Seq::<Seq<char>>::empty(),
    {
        let a = App { input: Vec::new(), input_mode: InputMode::Normal, messages: Vec::new(), character_index: 0 };
        assert(a@.messages =~= Seq::<Seq<char>>::empty());
        assert(encode_utf8(Seq::<char>::empty()) =~= Seq::<u8>::empty());
        a
    }

    /// The line being edited.
    pub fn input(&self) -> (s: String)
        ensures
            s@ == self@.input,
    {
        string_of(&self.input)
    }

    /// The cursor, as a character position in the line.
    pub fn character_index(&self) -> (i: usize)
        ensures
            i == self@.cursor,
            cursor_in_line(self@),
    {
        proof {
            use_type_invariant(self);
        }
        self.character_index
    }

    /// The editing mode.
    pub fn input_mode(&self) -> (m: InputMode)
        ensures
            m == self@.mode,
    {
        self.input_mode
    }

    /// Switches the editing mode.
    pub fn set_input_mode(&mut self, mode: InputMode)
        ensures
            final(self)@ == (AppView { mode, ..old(self)@ }),
    {
        proof {
            use_type_invariant(&*self);
        }
        self.input_mode = mode;
    }

    /// The messages sent so far, oldest first.
    pub fn messages(&self) -> (m: &Vec<String>)
        ensures
            m@.map_values(|s: String| s@) == self@.messages,
    {
        &self.messages
    }

    /// Moves the cursor one character left (see `moved_left`).
    pub fn move_cursor_left(&mut self)
        ensures
            final(self)@ == moved_left(old(self)@),
    {
        proof {
            use_type_invariant(&*self);
        }
        let cursor_moved_left = self.character_index.saturating_sub(1);
        self.character_index = self.clamp_cursor(cursor_moved_left);
    }

    /// Moves the cursor one character right (see `moved_right`).
    pub fn move_cursor_right(&mut self)
        ensures
            final(self)@ == moved_right(old(self)@),
    {
        proof {
            use_type_invariant(&*self);
            lemma_utf8_len_at_least_len(self@.input);
        }
        let cursor_moved_right = self.character_index.saturating_add(1);
        self.character_index = self.clamp_cursor(cursor_moved_right);
    }

    /// Types `c` at the cursor (see `typed`). The line's UTF-8 form must
    /// stay within the largest size of a string (see `fits_after_typing`).
    pub fn enter_char(&mut self, new_char: char)
        requires
            fits_after_typing(old(self)@.input, new_char),
        ensures
            final(self)@ == typed(old(self)@, new_char),
    {
        proof {
            use_type_invariant(&*self);
        }
        let ghost before = self@;
        proof {
            lemma_utf8_len_at_least_len(self@.input);
        }
        let index = self.character_index;
        self.character_index = 0;
        let mut input: Vec<char> = Vec::new();
        proof {
            assert(encode_utf8(Seq::<char>::empty()) =~= Seq::<u8>::empty());
        }
        std::mem::swap(&mut input, &mut self.input);
        input.insert(index, new_char);
        proof {
            let s = before.input;
            let i = index as int;
            assert(input@ =~= s.take(i) + (seq![new_char] + s.skip(i)));
            assert(s =~= s.take(i) + s.skip(i));
            lemma_utf8_len_concat(s.take(i), s.skip(i));
            lemma_utf8_len_concat(s.take(i), seq![new_char] + s.skip(i));
            lemma_utf8_len_concat(seq![new_char], s.skip(i));
            lemma_utf8_len_push(Seq::<char>::empty(), new_char);
            assert(Seq::<char>::empty().push(new_char) =~= seq![new_char]);
            assert(encode_utf8(Seq::<char>::empty()) =~= Seq::<u8>::empty());
        }
        self.input = input;
        self.character_index = index + 1;
    }

    /// The number of UTF-8 bytes of the first `n` characters of the line.
    fn prefix_byte_len(&self, n: usize) -> (b: usize)
        requires
            n <= self@.input.len(),
        ensures
            b == utf8_len(self@.input.take(n as int)),
    {
        proof {
            use_type_invariant(self);
            lemma_utf8_len_take(self@.input, n as int);
            lemma_utf8_len_at_least_len(self@.input);
        }
        let mut total: usize = 0;
        let mut i: usize = 0;
        assert(self@.input.take(0) =~= Seq::<char>::empty());
        assert(encode_utf8(Seq::<char>::empty()) =~= Seq::<u8>::empty());
        while i < n
            invariant
                i <= n <= self.input@.len(),
                total == utf8_len(self.input@.take(i as int)),
                utf8_len(self.input@.take(n as int)) <= usize::MAX,
            decreases n - i,
        {
            let c = self.input[i];
            proof {
                assert(self.input@.take(i + 1) =~= self.input@.take(i as int).push(c));
                lemma_utf8_len_push(self.input@.take(i as int), c);
                lemma_utf8_len_take(self.input@.take(n as int), i + 1);
                assert(self.input@.take(n as int).take(i + 1) =~= self.input@.take(i + 1));
            }
            total = total + utf8_width(c);
            i += 1;
        }
        total
    }

    /// The byte position of the cursor in the UTF-8 form of the line: the
    /// number of bytes of the characters before it.
    pub fn byte_index(&self) -> (b: usize)
        ensures
            b == utf8_len(self@.input.take(self@.cursor as int)),
    {
        proof {
            use_type_invariant(self);
        }
        self.prefix_byte_len(self.character_index)
    }

    /// Whether `c` can be typed into the line (see `fits_after_typing`).
    pub fn has_room(&self, c: char) -> (r: bool)
        ensures
            r == fits_after_typing(self@.input, c),
    {
        proof {
            use_type_invariant(self);
        }
        let total = self.prefix_byte_len(self.input.len());
        assert(self@.input.take(self@.input.len() as int) =~= self@.input);
        total + utf8_width(c) <= isize::MAX as usize
    }

    /// Erases the character before the cursor (see `erased`).
    pub fn delete_char(&mut self)
        ensures
            final(self)@ == erased(old(self)@),
    {
        proof {
            use_type_invariant(&*self);
        }
        let is_not_cursor_leftmost = self.character_index != 0;
        if is_not_cursor_leftmost {
            let ghost before = self@;
            let current_index = self.character_index;
            self.character_index = 0;
            let mut input: Vec<char> = Vec::new();
            proof {
                assert(encode_utf8(Seq::<char>::empty()) =~= Seq::<u8>::empty());
            }
            std::mem::swap(&mut input, &mut self.input);
            input.remove(current_index - 1);
            proof {
                let s = before.input;
                let i = current_index as int;
                assert(input@ =~= s.take(i - 1) + s.skip(i));
                assert(s =~= s.take(i - 1) + (seq![s[i - 1]] + s.skip(i)));
                lemma_utf8_len_concat(s.take(i - 1), seq![s[i - 1]] + s.skip(i));
                lemma_utf8_len_concat(seq![s[i - 1]], s.skip(i));
                lemma_utf8_len_concat(s.take(i - 1), s.skip(i));
            }
            self.input = input;
            self.character_index = self.clamp_cursor(current_index - 1);
        }
    }

    /// The position `new_cursor_pos` limited to the line: at most just after
    /// its last character.
    pub fn clamp_cursor(&self, new_cursor_pos: usize) -> (p: usize)
        ensures
            p == if new_cursor_pos <= self@.input.len() { new_cursor_pos as nat } else { self@.input.len() },
    {
        let count = self.input.len();
        if new_cursor_pos <= count {
            new_cursor_pos
        } else {
            count
        }
    }

    /// Puts the cursor at the start of the line.
    pub fn reset_cursor(&mut self)
        ensures
            final(self)@ == (AppView { cursor: 0, ..old(self)@ }),
    {
        proof {
            use_type_invariant(&*self);
        }
        self.character_index = 0;
    }

    /// Sends the line (see `submitted`) and returns its text.
    pub fn submit_message(&mut self) -> (sent: String)
        ensures
            final(self)@ == submitted(old(self)@),
            sent@ == old(self)@.input,
    {
        proof {
            use_type_invariant(&*self);
        }
        let message = string_of(&self.input);
        let ghost before = self@;
        let mut messages: Vec<String> = Vec::new();
        std::mem::swap(&mut messages, &mut self.messages);
        messages.push(message.clone());
        self.messages = messages;
        self.reset_cursor();
        let mut input: Vec<char> = Vec::new();
        proof {
            assert(encode_utf8(Seq::<char>::empty()) =~= Seq::<u8>::empty());
        }
        std::mem::swap(&mut input, &mut self.input);
        assert(self@.messages =~= before.messages.push(before.input));
        assert(self@ =~= submitted(before));
        message
    }

    /// The strings of a JSON array, in order; nothing for any other value.
    pub fn parse_json_to_messages(json_value: &Json) -> (messages: Vec<String>)
        ensures
            messages@.map_values(|m: String| m@) == match json_value {
                Json::Array(items) => string_items(items@),
                _ => Seq::<Seq<char>>::empty(),
            },
    {
        let mut messages: Vec<String> = Vec::new();
        if let Json::Array(items) = json_value {
            let mut i: usize = 0;
            assert(items@.take(0) =~= Seq::<Json>::empty());
            while i < items.len()
                invariant
                    i <= items@.len(),
                    messages@.map_values(|m: String| m@) == string_items(items@.take(i as int)),
                decreases items@.len() - i,
            {
                let ghost before = messages@;
                assert(items@.take(i + 1).drop_last() =~= items@.take(i as int));
                if let Json::Text(msg) = &items[i] {
                    messages.push(msg.clone());
                    assert(messages@.map_values(|m: String| m@) =~= before.map_values(|m: String| m@) + seq![msg@]);
                } else {
                    assert(string_items(items@.take(i + 1)) =~= string_items(items@.take(i as int)));
                }
                i += 1;
            }
            assert(items@.take(i as int) =~= items@);
        } else {
            assert(messages@.map_values(|m: String| m@) =~= Seq::<Seq<char>>::empty());
        }
        messages
    }

    /// The user and payload of a request typed in the client: user 123 with
    /// the given nickname, active, no previous nickname; the payload holds
    /// the command and its input.
    pub fn build_request(nickname: String, command: String, input: String) -> (r: (User, Payload))
        ensures
            r.0.id == 123,
            r.0.nickname@ == nickname@,
            r.0.last_nickname@ == Seq::<char>::empty(),
            r.0.active,
            r.1@ == seq![("command"@, command@), ("input"@, input@)],
    {
        let user = User { id: 123, nickname, last_nickname: String::new(), active: true };
        let mut payload = Payload::new();
        let ghost cv = command@;
        payload.insert("command", command);
        payload.insert("input", input);
        proof {
            reveal_strlit("command");
            reveal_strlit("input");
            assert("command"@[0] != "input"@[0]);
            lemma_store_empty("command"@, cv);
            lemma_store_fresh(seq![("command"@, cv)], "input"@, input@);
        }
        (user, payload)
    }

    /// Reacts to a key. In normal mode `e` starts editing and `q` quits. In
    /// editing mode, for key presses only: Enter sends the line, a character
    /// is typed, Backspace erases, Left and Right move the cursor, Esc goes
    /// back to normal mode. Other keys change nothing.
    pub fn handle_key(&mut self, key: Key, pressed: bool) -> (out: KeyOutcome)
        requires
            match key {
                Key::Char(c) => old(self)@.mode == InputMode::Editing && pressed ==> fits_after_typing(old(self)@.input, c),
                _ => true,
            },
        ensures
            match (old(self)@.mode, key) {
                (InputMode::Normal, Key::Char('e')) => out is Continue && final(self)@ == (AppView { mode: InputMode::Editing, ..old(self)@ }),
                (InputMode::Normal, Key::Char('q')) => out is Quit && final(self)@ == old(self)@,
                (InputMode::Normal, _) => out is Continue && final(self)@ == old(self)@,
                (InputMode::Editing, _) => if !pressed {
                    out is Continue && final(self)@ == old(self)@
                } else {
                    match key {
                        Key::Enter => final(self)@ == submitted(old(self)@) && (match out {
                            KeyOutcome::Submit(m) => m@ == old(self)@.input,
                            _ => false,
                        }),
                        Key::Char(c) => out is Continue && final(self)@ == typed(old(self)@, c),
                        Key::Backspace => out is Continue && final(self)@ == erased(old(self)@),
                        Key::Left => out is Continue && final(self)@ == moved_left(old(self)@),
                        Key::Right => out is Continue && final(self)@ == moved_right(old(self)@),
                        Key::Esc => out is Continue && final(self)@ == (AppView { mode: InputMode::Normal, ..old(self)@ }),
                        Key::Other => out is Continue && final(self)@ == old(self)@,
                    }
                },
            },
    {
        proof {
            use_type_invariant(&*self);
        }
        match self.input_mode {
            InputMode::Normal => match key {
                Key::Char('e') => {
                    self.input_mode = InputMode::Editing;
                    KeyOutcome::Continue
                },
                Key::Char('q') => KeyOutcome::Quit,
                _ => KeyOutcome::Continue,
            },
            InputMode::Editing => {
                if !pressed {
                    return KeyOutcome::Continue;
                }
                match key {
                    Key::Enter => KeyOutcome::Submit(self.submit_message()),
                    Key::Char(to_insert) => {
                        self.enter_char(to_insert);
                        KeyOutcome::Continue
                    },
                    Key::Backspace => {
                        self.delete_char();
                        KeyOutcome::Continue
                    },
                    Key::Left => {
                        self.move_cursor_left();
                        KeyOutcome::Continue
                    },
                    Key::Right => {
                        self.move_cursor_right();
                        KeyOutcome::Continue
                    },
                    Key::Esc => {
                        self.input_mode = InputMode::Normal;
                        KeyOutcome::Continue
                    },
                    Key::Other => KeyOutcome::Continue,
                }
            },
        }
    }
}

/// Typing a character and erasing it again gives back the line and the
/// cursor.
pub proof fn lemma_erase_undoes_typing(v: AppView, c: char)
    requires
        cursor_in_line(v),
    ensures
        erased(typed(v, c)) == v,
{
    let t = typed(v, c);
    assert(t.input.take(v.cursor as int) + t.input.skip(v.cursor + 1int) =~= v.input);
}

/// Every edit keeps the cursor within the line.
pub proof fn lemma_edits_keep_cursor_in_line(v: AppView, c: char)
    requires
        cursor_in_line(v),
    ensures
        cursor_in_line(moved_left(v)),
        cursor_in_line(moved_right(v)),
        cursor_in_line(typed(v, c)),
        cursor_in_line(erased(v)),
        cursor_in_line(submitted(v)),
{
}

/// Moving left steps back one character and never moves right: the cursor
/// drops by one, or stays at the start of the line; nothing else changes.
pub proof fn lemma_moving_left(v: AppView)
    ensures
        moved_left(v).cursor <= v.cursor,
        v.cursor > 0 ==> moved_left(v).cursor + 1 == v.cursor,
        v.cursor == 0 ==> moved_left(v).cursor == 0,
        moved_left(v).input == v.input,
        moved_left(v).mode == v.mode,
        moved_left(v).messages == v.messages,
{
}

/// Moving right steps forward one character and never moves left: the
/// cursor grows by one, or stays at the end of the line; nothing else
/// changes.
pub proof fn lemma_moving_right(v: AppView)
    requires
        cursor_in_line(v),
    ensures
        moved_right(v).cursor >= v.cursor,
        v.cursor < v.input.len() ==> moved_right(v).cursor == v.cursor + 1,
        v.cursor == v.input.len() ==> moved_right(v).cursor == v.cursor,
        moved_right(v).input == v.input,
        moved_right(v).mode == v.mode,
        moved_right(v).messages == v.messages,
{
}

/// Typing puts the character at the cursor, keeps the characters before it
/// in place and shifts those after it by one; the cursor ends just after
/// the new character, and mode and messages stay.
pub proof fn lemma_typing(v: AppView, c: char)
    requires
        cursor_in_line(v),
    ensures
        typed(v, c).input.len() == v.input.len() + 1,
        typed(v, c).input[v.cursor as int] == c,
        forall|i: int| 0 <= i < v.cursor ==> #[trigger] typed(v, c).input[i] == v.input[i],
        forall|i: int| v.cursor <= i < v.input.len() ==> #[trigger] typed(v, c).input[i + 1] == v.input[i],
        typed(v, c).cursor == v.cursor + 1,
        typed(v, c).mode == v.mode,
        typed(v, c).messages == v.messages,
{
}

/// A backspace after the start of the line removes exactly the character
/// before the cursor, keeping the others in order, and moves the cursor onto
/// its place; at the start of the line it changes nothing. Mode and messages
/// stay.
pub proof fn lemma_erasing(v: AppView)
    requires
        cursor_in_line(v),
    ensures
        v.cursor == 0 ==> erased(v) == v,
        v.cursor > 0 ==> erased(v).input.len() + 1 == v.input.len(),
        v.cursor > 0 ==> erased(v).cursor + 1 == v.cursor,
        v.cursor > 0 ==> forall|i: int| 0 <= i < v.cursor - 1 ==> #[trigger] erased(v).input[i] == v.input[i],
        v.cursor > 0 ==> forall|i: int| v.cursor <= i < v.input.len() ==> #[trigger] erased(v).input[i - 1] == v.input[i],
        erased(v).mode == v.mode,
        erased(v).messages == v.messages,
{
}

/// Sending the line adds it after the earlier messages, clears the line and
/// puts the cursor at its start; the editing mode stays as it was.
pub proof fn lemma_submitting(v: AppView)
    ensures
        submitted(v).mode == v.mode,
        submitted(v).messages.len() == v.messages.len() + 1,
        submitted(v).messages.last() == v.input,
        forall|i: int| 0 <= i < v.messages.len() ==> #[trigger] submitted(v).messages[i] == v.messages[i],
        submitted(v).input.len() == 0,
        submitted(v).cursor == 0,
{
}

/// Moving right and then left comes back to the same place, except at the
/// end of the line.
pub proof fn lemma_left_undoes_right(v: AppView)
    requires
        v.cursor < v.input.len(),
    ensures
        moved_left(moved_right(v)) == v,
{
}

} // verus!
