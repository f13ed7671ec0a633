//! Key bindings and start-up intents.

use crate::command::Command;
use crate::text::{chars_of, push_char};
use vstd::prelude::*;

verus! {

/// A key of the keyboard.
#[derive(Debug, Clone, Copy, PartialEq, Eq, Structural, Hash)]
pub enum KeyCode {
    Return,
    Left,
    Right,
    Up,
    Down,
    Backspace,
    Delete,
    Tab,
    BackTab,
    Esc,
    Char(char),
    /// A key that has no name in a configuration.
    Other,
}

/// A key stroke: a key and the modifiers held with it. In text it is
/// written as the modifiers `Ctrl+` and `Alt+`, then the key's name.
#[derive(Debug, Clone, Copy, PartialEq, Eq, Structural, Hash)]
pub struct Key {
    pub ctrl: bool,
    pub alt: bool,
    pub code: KeyCode,
}

/// Why a text is not a key stroke.
#[derive(Debug, Clone, Copy, PartialEq, Eq, Structural, Hash)]
pub enum KeyError {
    /// The last part names no key.
    UnknownKey,
    /// A part before the last is neither `Ctrl` nor `Alt`.
    UnknownModifier,
}

/// The parts of `s` between its `+` signs, in order. There is always at
/// least one part; parts may be empty.
pub open spec fn split(s: Seq<char>) -> Seq<Seq<char>>
    decreases s.len(),
{
    if s.len() == 0 {
        seq![Seq::empty()]
    } else {
        let head = split(s.drop_last());
        if s.last() == '+' {
            head.push(Seq::empty())
        } else {
            head.update(head.len() - 1, head.last().push(s.last()))
        }
    }
}

/// Whether `c` is a character that a key stroke can name by itself: a
/// letter of the basic alphabet, or a space.
pub open spec fn nameable(c: char) -> bool {
    ('a' <= c && c <= 'z') || ('A' <= c && c <= 'Z') || c == ' '
}

/// The key that `name` names, if any.
pub open spec fn code_of(name: Seq<char>) -> Option<KeyCode> {
    if name == "Enter"@ {
        Some(KeyCode::Return)
    } else if name == "Left"@ {
        Some(KeyCode::Left)
    } else if name == "Right"@ {
        Some(KeyCode::Right)
    } else if name == "Up"@ {
        Some(KeyCode::Up)
    } else if name == "Down"@ {
        Some(KeyCode::Down)
    } else if name == "Backspace"@ {
        Some(KeyCode::Backspace)
    } else if name == "Delete"@ {
        Some(KeyCode::Delete)
    } else if name == "Tab"@ {
        Some(KeyCode::Tab)
    } else if name == "BackTab"@ {
        Some(KeyCode::BackTab)
    } else if name == "Esc"@ {
        Some(KeyCode::Esc)
    } else if name.len() == 1 && nameable(name[0]) {
        Some(KeyCode::Char(name[0]))
    } else {
        None
    }
}

/// Whether each of the first `n` parts is a modifier.
pub open spec fn modifiers_known(parts: Seq<Seq<char>>, n: int) -> bool {
    forall|i: int| 0 <= i < n ==> parts[i] == "Ctrl"@ || parts[i] == "Alt"@
}

/// Whether one of the first `n` parts is `word`.
pub open spec fn has_part(parts: Seq<Seq<char>>, n: int, word: Seq<char>) -> bool {
    exists|i: int| 0 <= i < n && parts[i] == word
}

/// The key stroke that `s` is the text of. The last part names the key;
/// the parts before it are modifiers, in any order and any number.
pub open spec fn parsed(s: Seq<char>) -> Result<Key, KeyError> {
    let parts = split(s);
    let n = parts.len() - 1;
    match code_of(parts.last()) {
        None => Err(KeyError::UnknownKey),
        Some(code) => if modifiers_known(parts, n) {
            Ok(Key { ctrl: has_part(parts, n, "Ctrl"@), alt: has_part(parts, n, "Alt"@), code })
        } else {
            Err(KeyError::UnknownModifier)
        },
    }
}

/// The name of a key.
pub open spec fn name_of(code: KeyCode) -> Seq<char> {
    match code {
        KeyCode::Return => "Enter"@,
        KeyCode::Left => "Left"@,
        KeyCode::Right => "Right"@,
        KeyCode::Up => "Up"@,
        KeyCode::Down => "Down"@,
        KeyCode::Backspace => "Backspace"@,
        KeyCode::Delete => "Delete"@,
        KeyCode::Tab => "Tab"@,
        KeyCode::BackTab => "BackTab"@,
        KeyCode::Esc => "Esc"@,
        KeyCode::Char(c) => seq![c],
        KeyCode::Other => Seq::empty(),
    }
}

/// The text of a key stroke.
pub open spec fn text_of(key: Key) -> Seq<char> {
    (if key.ctrl {
        "Ctrl+"@
    } else {
        Seq::empty()
    }) + (if key.alt {
        "Alt+"@
    } else {
        Seq::empty()
    }) + name_of(key.code)
}

/// A text without `+` is its only part.
proof fn lemma_split_plain(s: Seq<char>)
    requires
        !s.contains('+'),
    ensures
        split(s) == seq![s],
    decreases s.len(),
{
    if s.len() > 0 {
        let head = s.drop_last();
        assert forall|i: int| 0 <= i < head.len() implies head[i] != '+' by {
            assert(s[i] == head[i]);
            assert(s.contains(s[i]));
        }
        assert(!head.contains('+'));
        lemma_split_plain(head);
        assert(s.contains(s.last()));
        assert(head.push(s.last()) =~= s);
        assert(seq![head].update(0, head.push(s.last())) =~= seq![s]);
    } else {
        assert(s =~= Seq::<char>::empty());
    }
}

/// A `+` and a text without `+` at the end of a text add one part.
proof fn lemma_split_append(s: Seq<char>, t: Seq<char>)
    requires
        !t.contains('+'),
    ensures
        split(s + seq!['+'] + t) == split(s).push(t),
    decreases t.len(),
{
    let w = s + seq!['+'] + t;
    if t.len() == 0 {
        assert(w.drop_last() =~= s);
        assert(w.last() == '+');
        assert(t =~= Seq::<char>::empty());
    } else {
        let head = t.drop_last();
        assert forall|i: int| 0 <= i < head.len() implies head[i] != '+' by {
            assert(t[i] == head[i]);
            assert(t.contains(t[i]));
        }
        assert(!head.contains('+'));
        lemma_split_append(s, head);
        assert(w.drop_last() =~= s + seq!['+'] + head);
        assert(w.last() == t.last());
        assert(t.contains(t.last()));
        let parts = split(s).push(head);
        assert(parts.update(parts.len() - 1, parts.last().push(t.last())) =~= split(s).push(t)) by {
            assert(head.push(t.last()) =~= t);
        }
    }
}

/// What the names of keys and modifiers hold.
proof fn lemma_names()
    ensures
        "Enter"@ == seq!['E', 'n', 't', 'e', 'r'],
        "Left"@ == seq!['L', 'e', 'f', 't'],
        "Right"@ == seq!['R', 'i', 'g', 'h', 't'],
        "Up"@ == seq!['U', 'p'],
        "Down"@ == seq!['D', 'o', 'w', 'n'],
        "Backspace"@ == seq!['B', 'a', 'c', 'k', 's', 'p', 'a', 'c', 'e'],
        "Delete"@ == seq!['D', 'e', 'l', 'e', 't', 'e'],
        "Tab"@ == seq!['T', 'a', 'b'],
        "BackTab"@ == seq!['B', 'a', 'c', 'k', 'T', 'a', 'b'],
        "Esc"@ == seq!['E', 's', 'c'],
        "Ctrl"@ == seq!['C', 't', 'r', 'l'],
        "Alt"@ == seq!['A', 'l', 't'],
        "Ctrl+"@ == "Ctrl"@ + seq!['+'],
        "Alt+"@ == "Alt"@ + seq!['+'],
{
    reveal_strlit("Enter");
    reveal_strlit("Left");
    reveal_strlit("Right");
    reveal_strlit("Up");
    reveal_strlit("Down");
    reveal_strlit("Backspace");
    reveal_strlit("Delete");
    reveal_strlit("Tab");
    reveal_strlit("BackTab");
    reveal_strlit("Esc");
    reveal_strlit("Ctrl");
    reveal_strlit("Alt");
    reveal_strlit("Ctrl+");
    reveal_strlit("Alt+");
    assert("Enter"@ =~= seq!['E', 'n', 't', 'e', 'r']);
    assert("Left"@ =~= seq!['L', 'e', 'f', 't']);
    assert("Right"@ =~= seq!['R', 'i', 'g', 'h', 't']);
    assert("Up"@ =~= seq!['U', 'p']);
    assert("Down"@ =~= seq!['D', 'o', 'w', 'n']);
    assert("Backspace"@ =~= seq!['B', 'a', 'c', 'k', 's', 'p', 'a', 'c', 'e']);
    assert("Delete"@ =~= seq!['D', 'e', 'l', 'e', 't', 'e']);
    assert("Tab"@ =~= seq!['T', 'a', 'b']);
    assert("BackTab"@ =~= seq!['B', 'a', 'c', 'k', 'T', 'a', 'b']);
    assert("Esc"@ =~= seq!['E', 's', 'c']);
    assert("Ctrl"@ =~= seq!['C', 't', 'r', 'l']);
    assert("Alt"@ =~= seq!['A', 'l', 't']);
    assert("Ctrl+"@ =~= "Ctrl"@ + seq!['+']);
    assert("Alt+"@ =~= "Alt"@ + seq!['+']);
}

/// The name of a key that can be read holds no `+` and names that key.
proof fn lemma_name_read(code: KeyCode)
    requires
        match code {
            KeyCode::Char(c) => nameable(c),
            KeyCode::Other => false,
            _ => true,
        },
    ensures
        !name_of(code).contains('+'),
        code_of(name_of(code)) == Some(code),
{
    lemma_names();
    let name = name_of(code);
    assert forall|i: int| 0 <= i < name.len() implies name[i] != '+' by {}
    assert("Enter"@[0] == 'E' && "Right"@[0] == 'R');
    assert("Left"@[0] == 'L' && "Down"@[0] == 'D');
    assert("Tab"@[0] == 'T' && "Esc"@[0] == 'E');
}

/// A key stroke that is written and read again is the same key stroke:
/// for every key that has a name, and every letter or space, with or
/// without modifiers, reading the text of the key stroke gives it back.
pub proof fn lemma_text_reads_back(key: Key)
    requires
        key.readable(),
    ensures
        parsed(text_of(key)) == Ok::<Key, KeyError>(key),
{
    lemma_names();
    lemma_name_read(key.code);
    let name = name_of(key.code);
    let ctrl = "Ctrl"@;
    let alt = "Alt"@;
    let plus = seq!['+'];
    assert(!ctrl.contains('+')) by {
        assert forall|i: int| 0 <= i < ctrl.len() implies ctrl[i] != '+' by {}
    }
    assert(!alt.contains('+')) by {
        assert forall|i: int| 0 <= i < alt.len() implies alt[i] != '+' by {}
    }
    assert(ctrl.len() != alt.len());
    let text = text_of(key);
    if key.ctrl && key.alt {
        assert(text =~= (ctrl + plus + alt) + plus + name);
        lemma_split_plain(ctrl);
        lemma_split_append(ctrl, alt);
        lemma_split_append(ctrl + plus + alt, name);
        let parts = split(text);
        assert(parts =~= seq![ctrl, alt, name]);
        assert(parts[0] == ctrl && parts[1] == alt);
        assert(has_part(parts, 2, ctrl));
        assert(has_part(parts, 2, alt));
    } else if key.ctrl {
        assert(text =~= ctrl + plus + name);
        lemma_split_plain(ctrl);
        lemma_split_append(ctrl, name);
        let parts = split(text);
        assert(parts =~= seq![ctrl, name]);
        assert(parts[0] == ctrl);
        assert(has_part(parts, 1, ctrl));
        assert(!has_part(parts, 1, alt));
    } else if key.alt {
        assert(text =~= alt + plus + name);
        lemma_split_plain(alt);
        lemma_split_append(alt, name);
        let parts = split(text);
        assert(parts =~= seq![alt, name]);
        assert(parts[0] == alt);
        assert(has_part(parts, 1, alt));
        assert(!has_part(parts, 1, ctrl));
    } else {
        assert(text =~= name);
        lemma_split_plain(name);
        let parts = split(text);
        assert(!has_part(parts, 0, ctrl));
        assert(!has_part(parts, 0, alt));
    }
}

/// Whether `part` reads `word`.
fn reads(part: &Vec<char>, word: &str) -> (b: bool)
    ensures
        b == (part@ == word@),
{
    let n = word.unicode_len();
    if part.len() != n {
        return false;
    }
    let mut i: usize = 0;
    while i < n
        invariant
            i <= n,
            n == word@.len(),
            n == part@.len(),
            forall|j: int| 0 <= j < i ==> part@[j] == word@[j],
        decreases n - i,
    {
        if part[i] != word.get_char(i) {
            return false;
        }
        i = i + 1;
    }
    assert(part@ =~= word@);
    true
}

/// The parts of `s` between its `+` signs.
fn split_parts(s: &Vec<char>) -> (parts: Vec<Vec<char>>)
    ensures
        parts@.len() == split(s@).len(),
        parts@.len() >= 1,
        forall|i: int| 0 <= i < parts@.len() ==> (#[trigger] parts@[i])@ == split(s@)[i],
{
    let mut parts: Vec<Vec<char>> = Vec::new();
    let mut current: Vec<char> = Vec::new();
    let mut i: usize = 0;
    assert(s@.take(0) =~= Seq::<char>::empty());
    while i < s.len()
        invariant
            i <= s@.len(),
            parts@.len() + 1 == split(s@.take(i as int)).len(),
            forall|j: int|
                0 <= j < parts@.len() ==> (#[trigger] parts@[j])@ == split(s@.take(i as int))[j],
            current@ == split(s@.take(i as int)).last(),
        decreases s@.len() - i,
    {
        let c = s[i];
        proof {
            assert(s@.take(i + 1).drop_last() =~= s@.take(i as int));
            assert(s@.take(i + 1).last() == c);
        }
        if c == '+' {
            parts.push(current);
            current = Vec::new();
        } else {
            current.push(c);
        }
        i = i + 1;
    }
    assert(s@.take(s@.len() as int) =~= s@);
    parts.push(current);
    parts
}

/// The key that `name` names, if any.
fn code_for(name: &Vec<char>) -> (r: Option<KeyCode>)
    ensures
        r == code_of(name@),
{
    if reads(name, "Enter") {
        Some(KeyCode::Return)
    } else if reads(name, "Left") {
        Some(KeyCode::Left)
    } else if reads(name, "Right") {
        Some(KeyCode::Right)
    } else if reads(name, "Up") {
        Some(KeyCode::Up)
    } else if reads(name, "Down") {
        Some(KeyCode::Down)
    } else if reads(name, "Backspace") {
        Some(KeyCode::Backspace)
    } else if reads(name, "Delete") {
        Some(KeyCode::Delete)
    } else if reads(name, "Tab") {
        Some(KeyCode::Tab)
    } else if reads(name, "BackTab") {
        Some(KeyCode::BackTab)
    } else if reads(name, "Esc") {
        Some(KeyCode::Esc)
    } else if name.len() == 1 {
        let c = name[0];
        if ('a' <= c && c <= 'z') || ('A' <= c && c <= 'Z') || c == ' ' {
            Some(KeyCode::Char(c))
        } else {
            None
        }
    } else {
        None
    }
}

impl Key {
    /// Whether the key stroke has a text: its key has a name.
    pub open spec fn writable(self) -> bool {
        self.code != KeyCode::Other
    }

    /// Whether the key stroke has a text that can be read: its key has a
    /// name, or is a letter or the space.
    pub open spec fn readable(self) -> bool {
        match self.code {
            KeyCode::Char(c) => nameable(c),
            KeyCode::Other => false,
            _ => true,
        }
    }

    /// Reads a key stroke from its text.
    pub fn parse(s: &str) -> (r: Result<Key, KeyError>)
        ensures
            r == parsed(s@),
    {
        let chars = chars_of(s);
        let parts = split_parts(&chars);
        let n = parts.len() - 1;
        let code = match code_for(&parts[n]) {
            Some(code) => code,
            None => {
                return Err(KeyError::UnknownKey);
            },
        };
        let ghost all = split(s@);
        let mut ctrl = false;
        let mut alt = false;
        let mut i: usize = 0;
        while i < n
            invariant
                i <= n,
                n + 1 == parts@.len(),
                all == split(s@),
                all.len() == parts@.len(),
                code_of(all.last()) == Some(code),
                forall|j: int| 0 <= j < parts@.len() ==> (#[trigger] parts@[j])@ == all[j],
                modifiers_known(all, i as int),
                ctrl == has_part(all, i as int, "Ctrl"@),
                alt == has_part(all, i as int, "Alt"@),
            decreases n - i,
        {
            let is_ctrl = reads(&parts[i], "Ctrl");
            let is_alt = reads(&parts[i], "Alt");
            proof {
                assert(parts@[i as int]@ == all[i as int]);
                reveal_strlit("Ctrl");
                reveal_strlit("Alt");
                assert("Ctrl"@.len() != "Alt"@.len());
                assert forall|w: Seq<char>| has_part(all, i + 1, w) <==> has_part(all, i as int, w)
                    || all[i as int] == w by {
                    if has_part(all, i + 1, w) {
                        let k = choose|k: int| 0 <= k < i + 1 && all[k] == w;
                        if k < i {
                            assert(has_part(all, i as int, w));
                        }
                    }
                    if has_part(all, i as int, w) {
                        let k = choose|k: int| 0 <= k < i && all[k] == w;
                        assert(0 <= k < i + 1 && all[k] == w);
                    }
                    if all[i as int] == w {
                        assert(0 <= i < i + 1 && all[i as int] == w);
                    }
                }
            }
            if is_ctrl {
                ctrl = true;
            } else if is_alt {
                alt = true;
            } else {
                proof {
                    assert(!modifiers_known(all, n as int));
                }
                return Err(KeyError::UnknownModifier);
            }
            i = i + 1;
        }
        Ok(Key { ctrl, alt, code })
    }

    /// Writes the key stroke as text.
    pub fn to_text(&self) -> (s: String)
        requires
            self.writable(),
        ensures
            s@ == text_of(*self),
    {
        let mut s = String::new();
        if self.ctrl {
            s.append("Ctrl+");
        }
        if self.alt {
            s.append("Alt+");
        }
        match self.code {
            KeyCode::Return => s.append("Enter"),
            KeyCode::Left => s.append("Left"),
            KeyCode::Right => s.append("Right"),
            KeyCode::Up => s.append("Up"),
            KeyCode::Down => s.append("Down"),
            KeyCode::Backspace => s.append("Backspace"),
            KeyCode::Delete => s.append("Delete"),
            KeyCode::Tab => s.append("Tab"),
            KeyCode::BackTab => s.append("BackTab"),
            KeyCode::Esc => s.append("Esc"),
            KeyCode::Char(c) => push_char(&mut s, c),
            KeyCode::Other => {},
        }
        assert(s@ =~= text_of(*self));
        s
    }
}

/// What a key is bound to.
#[derive(Debug)]
pub enum KeyCommand {
    /// Ends the session.
    Quit,
    /// Hands an intent to the model.
    Model(Command),
}

/// The bindings of keys to commands. A key is bound once at most.
#[derive(Debug)]
pub struct KeyConfig {
    keys: Vec<Key>,
    commands: Vec<KeyCommand>,
}

impl KeyConfig {
    /// Each stored key has a command, and no key is stored twice.
    pub closed spec fn wf(&self) -> bool {
        &&& self.keys@.len() == self.commands@.len()
        &&& forall|i: int, j: int|
            0 <= i < self.keys@.len() && 0 <= j < self.keys@.len() && self.keys@[i]
                == self.keys@[j] ==> i == j
    }

    /// The keys that are bound.
    pub closed spec fn bound(&self) -> Set<Key> {
        self.keys@.to_set()
    }

    /// What `key`, which is bound, is bound to.
    pub closed spec fn binding(&self, key: Key) -> KeyCommand {
        self.commands@[self.keys@.index_of(key)]
    }

    /// No bindings.
    pub fn new() -> (c: Self)
        ensures
            c.wf(),
            c.bound() == Set::<Key>::empty(),
    {
        let c = KeyConfig { keys: Vec::new(), commands: Vec::new() };
        assert(c.bound() =~= Set::<Key>::empty());
        c
    }

    fn find(&self, key: Key) -> (r: Option<usize>)
        requires
            self.wf(),
        ensures
            match r {
                Some(i) => i < self.keys@.len() && self.keys@[i as int] == key
                    && self.keys@.index_of(key) == i,
                None => !self.keys@.contains(key),
            },
    {
        let mut i: usize = 0;
        while i < self.keys.len()
            invariant
                i <= self.keys@.len(),
                self.wf(),
                forall|j: int| 0 <= j < i ==> self.keys@[j] != key,
            decreases self.keys@.len() - i,
        {
            if self.keys[i] == key {
                proof {
                    assert(self.keys@.contains(key));
                    let k = self.keys@.index_of(key);
                    assert(self.keys@[k] == key);
                }
                return Some(i);
            }
            i = i + 1;
        }
        None
    }

    /// Binds `key` to `command`, in place of what it was bound to.
    pub fn bind(&mut self, key: Key, command: KeyCommand)
        requires
            old(self).wf(),
        ensures
            final(self).wf(),
            final(self).bound() == old(self).bound().insert(key),
            final(self).binding(key) == command,
            forall|other: Key|
                other != key && old(self).bound().contains(other) ==> final(self).binding(other)
                    == old(self).binding(other),
    {
        match self.find(key) {
            Some(i) => {
                self.commands[i] = command;
                proof {
                    assert(self.keys@.contains(key));
                    assert(self.bound() =~= old(self).bound().insert(key));
                }
            },
            None => {
                let ghost n = self.keys@.len() as int;
                self.keys.push(key);
                self.commands.push(command);
                proof {
                    assert(self.keys@[n] == key);
                    assert(self.keys@.contains(key));
                    let k = self.keys@.index_of(key);
                    assert(self.keys@[k] == key);
                    assert(k == n) by {
                        if k < n {
                            assert(old(self).keys@[k] == key);
                            assert(old(self).keys@.contains(key));
                        }
                    }
                    assert forall|other: Key|
                        other != key && old(self).bound().contains(
                            other,
                        ) implies self.binding(other) == old(self).binding(other) by {
                        let a = old(self).keys@.index_of(other);
                        assert(old(self).keys@[a] == other);
                        assert(self.keys@[a] == other);
                        let b = self.keys@.index_of(other);
                        assert(self.keys@.contains(other));
                        assert(self.keys@[b] == other);
                    }
                    assert forall|x: Key| self.bound().contains(x) <==> old(self).bound().insert(
                        key,
                    ).contains(x) by {
                        if self.bound().contains(x) {
                            let j = choose|j: int| 0 <= j < self.keys@.len() && self.keys@[j] == x;
                            if j < n {
                                assert(old(self).keys@[j] == x);
                                assert(old(self).keys@.contains(x));
                            }
                        }
                        if old(self).bound().contains(x) {
                            let j = choose|j: int|
                                0 <= j < old(self).keys@.len() && old(self).keys@[j] == x;
                            assert(self.keys@[j] == x);
                        }
                    }
                    assert(self.bound() =~= old(self).bound().insert(key));
                }
            },
        }
    }

    /// What `key` is bound to, if it is bound.
    pub fn get_command(&self, key: Key) -> (r: Option<&KeyCommand>)
        requires
            self.wf(),
        ensures
            match r {
                Some(command) => self.bound().contains(key) && *command == self.binding(key),
                None => !self.bound().contains(key),
            },
    {
        match self.find(key) {
            Some(i) => {
                assert(self.keys@.contains(key));
                Some(&self.commands[i])
            },
            None => None,
        }
    }
}

/// The intents that are carried out when a session starts.
#[derive(Debug)]
pub struct InitConfig(pub Vec<Command>);

impl InitConfig {
    pub fn commands(&self) -> (c: &Vec<Command>)
        ensures
            *c == self.0,
    {
        &self.0
    }
}

/// A configuration: key bindings and start-up intents.
#[derive(Debug)]
pub struct Config {
    pub key: KeyConfig,
    pub init: InitConfig,
}

} // verus!
