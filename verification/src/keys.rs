use vstd::prelude::*;
use vstd::string::*;

verus! {

/// The modifier keys a terminal reports on their own.
#[derive(Clone, Copy, Debug, PartialEq, Eq)]
pub enum ModifierKey {
    LeftShift,
    RightShift,
    LeftControl,
    RightControl,
    LeftAlt,
    RightAlt,
    Other,
}

/// A key as the terminal reports it.
#[derive(Clone, Copy, Debug, PartialEq, Eq)]
pub enum KeyCode {
    Char(char),
    Enter,
    Backspace,
    Left,
    Right,
    Up,
    Down,
    Esc,
    Tab,
    Delete,
    Insert,
    Home,
    End,
    PageUp,
    PageDown,
    F(u8),
    CapsLock,
    Modifier(ModifierKey),
    Other,
}

/// Whether a key went down, came up or repeats.
#[derive(Clone, Copy, Debug, PartialEq, Eq)]
pub enum KeyKind {
    Press,
    Release,
    Repeat,
}

/// Names the lower-case form of a character, as `char::to_lowercase` gives it.
pub uninterp spec fn char_lowercase(c: char) -> Seq<char>;

/// `char::to_lowercase`, collected into a string: the lower-case mapping of `c`. For an ASCII
/// character that is the character itself, with `A`-`Z` mapped to `a`-`z`.
#[verifier::external_body]
fn lowercase_string(c: char) -> (s: String)
    ensures
        s@ == char_lowercase(c),
        (c as u32) < 128 ==> s@ == seq![
            if 'A' <= c <= 'Z' {
                ((c as u32) + 32) as char
            } else {
                c
            },
        ],
{
    c.to_lowercase().to_string()
}

/// The decimal digits of `n`.
pub open spec fn decimal(n: nat) -> Seq<char>
    decreases n,
{
    if n < 10 {
        seq![(48 + n) as char]
    } else {
        decimal(n / 10) + seq![(48 + n % 10) as char]
    }
}

/// The decimal digit `d < 10` as a one-character string.
fn digit_text(d: u8) -> (s: &'static str)
    requires
        d < 10,
    ensures
        s@ == seq![(48 + d) as char],
{
    proof {
        reveal_strlit("0");
        reveal_strlit("1");
        reveal_strlit("2");
        reveal_strlit("3");
        reveal_strlit("4");
        reveal_strlit("5");
        reveal_strlit("6");
        reveal_strlit("7");
        reveal_strlit("8");
        reveal_strlit("9");
    }
    match d {
        0 => "0",
        1 => "1",
        2 => "2",
        3 => "3",
        4 => "4",
        5 => "5",
        6 => "6",
        7 => "7",
        8 => "8",
        _ => "9",
    }
}

/// The name of function key `n`: `f` and the decimal digits of `n`.
fn function_key_name(n: u8) -> (s: String)
    ensures
        s@ == seq!['f'] + decimal(n as nat),
{
    proof {
        reveal_strlit("f");
        reveal_with_fuel(decimal, 3);
    }
    let mut s = String::from_str("f");
    if n >= 100 {
        s.append(digit_text(n / 100));
    }
    if n >= 10 {
        s.append(digit_text(n / 10 % 10));
    }
    s.append(digit_text(n % 10));
    proof {
        let m = n as nat;
        if m >= 100 {
            assert(decimal(m / 10) == decimal(m / 100) + seq![(48 + (m / 10) % 10) as char]);
            assert(decimal(m / 100) == seq![(48 + m / 100) as char]);
        } else if m >= 10 {
            assert(decimal(m / 10) == seq![(48 + m / 10) as char]);
        }
        assert(s@ =~= seq!['f'] + decimal(m));
    }
    s
}

/// The name LÖVE gives a key, or `unknown`.
pub open spec fn love_key_name(code: KeyCode) -> Seq<char> {
    match code {
        KeyCode::Char(c) => if c == ' ' {
            "space"@
        } else {
            char_lowercase(c)
        },
        KeyCode::Enter => "return"@,
        KeyCode::Backspace => "backspace"@,
        KeyCode::Left => "left"@,
        KeyCode::Right => "right"@,
        KeyCode::Up => "up"@,
        KeyCode::Down => "down"@,
        KeyCode::Esc => "escape"@,
        KeyCode::Tab => "tab"@,
        KeyCode::Delete => "delete"@,
        KeyCode::Insert => "insert"@,
        KeyCode::Home => "home"@,
        KeyCode::End => "end"@,
        KeyCode::PageUp => "pageup"@,
        KeyCode::PageDown => "pagedown"@,
        KeyCode::F(n) => seq!['f'] + decimal(n as nat),
        KeyCode::CapsLock => "capslock"@,
        KeyCode::Modifier(m) => match m {
            ModifierKey::LeftShift => "lshift"@,
            ModifierKey::RightShift => "rshift"@,
            ModifierKey::LeftControl => "lctrl"@,
            ModifierKey::RightControl => "rctrl"@,
            ModifierKey::LeftAlt => "lalt"@,
            ModifierKey::RightAlt => "ralt"@,
            ModifierKey::Other => "unknown"@,
        },
        KeyCode::Other => "unknown"@,
    }
}

/// The name LÖVE gives the key, `unknown` for keys it has no name for.
pub fn keycode_to_love_string(code: KeyCode) -> (name: String)
    ensures
        name@ == love_key_name(code),
{
    match code {
        KeyCode::Char(c) => if c == ' ' {
            "space".to_owned()
        } else {
            lowercase_string(c)
        },
        KeyCode::Enter => "return".to_owned(),
        KeyCode::Backspace => "backspace".to_owned(),
        KeyCode::Left => "left".to_owned(),
        KeyCode::Right => "right".to_owned(),
        KeyCode::Up => "up".to_owned(),
        KeyCode::Down => "down".to_owned(),
        KeyCode::Esc => "escape".to_owned(),
        KeyCode::Tab => "tab".to_owned(),
        KeyCode::Delete => "delete".to_owned(),
        KeyCode::Insert => "insert".to_owned(),
        KeyCode::Home => "home".to_owned(),
        KeyCode::End => "end".to_owned(),
        KeyCode::PageUp => "pageup".to_owned(),
        KeyCode::PageDown => "pagedown".to_owned(),
        KeyCode::F(n) => function_key_name(n),
        KeyCode::CapsLock => "capslock".to_owned(),
        KeyCode::Modifier(m) => match m {
            ModifierKey::LeftShift => "lshift".to_owned(),
            ModifierKey::RightShift => "rshift".to_owned(),
            ModifierKey::LeftControl => "lctrl".to_owned(),
            ModifierKey::RightControl => "rctrl".to_owned(),
            ModifierKey::LeftAlt => "lalt".to_owned(),
            ModifierKey::RightAlt => "ralt".to_owned(),
            ModifierKey::Other => "unknown".to_owned(),
        },
        KeyCode::Other => "unknown".to_owned(),
    }
}

/// What a terminal key event does to the game's input.
#[derive(Debug)]
pub enum KeyAction {
    /// Nothing: a key without a name, or a repeat.
    Ignore,
    /// The key goes down; `text` is the character typed, if any.
    Press { key: String, text: Option<char> },
    /// The key comes up.
    Release { key: String },
}

/// The action for a key event: named keys are pressed and released, and a character key
/// pressed without Control also types its character.
pub fn key_action(code: KeyCode, kind: KeyKind, control: bool) -> (a: KeyAction)
    ensures
        love_key_name(code) == "unknown"@ ==> a is Ignore,
        love_key_name(code) != "unknown"@ ==> match kind {
            KeyKind::Press => a matches KeyAction::Press { key, text } && key@ == love_key_name(code)
                && text == match code {
                KeyCode::Char(c) => if control {
                    None
                } else {
                    Some(c)
                },
                _ => None,
            },
            KeyKind::Release => a matches KeyAction::Release { key } && key@ == love_key_name(code),
            KeyKind::Repeat => a is Ignore,
        },
{
    let key = keycode_to_love_string(code);
    let unknown = "unknown".to_owned();
    if key == unknown {
        return KeyAction::Ignore;
    }
    match kind {
        KeyKind::Press => {
            let text = match code {
                KeyCode::Char(c) => if control {
                    None
                } else {
                    Some(c)
                },
                _ => None,
            };
            KeyAction::Press { key, text }
        },
        KeyKind::Release => KeyAction::Release { key },
        KeyKind::Repeat => KeyAction::Ignore,
    }
}

/// Keys that LÖVE has a name of its own for: every key but characters and the keys it calls
/// `unknown`.
pub open spec fn has_key_name(code: KeyCode) -> bool {
    match code {
        KeyCode::Char(_) | KeyCode::Other => false,
        KeyCode::Modifier(m) => m != ModifierKey::Other,
        _ => true,
    }
}

proof fn lemma_decimal_injective(n: nat, m: nat)
    requires
        decimal(n) == decimal(m),
    ensures
        n == m,
    decreases n,
{
    if n >= 10 {
        assert(decimal(n / 10).len() >= 1) by {
            reveal_with_fuel(decimal, 2);
        }
    }
    if m >= 10 {
        assert(decimal(m / 10).len() >= 1) by {
            reveal_with_fuel(decimal, 2);
        }
    }
    let dn = decimal(n);
    let dm = decimal(m);
    assert(dn[dn.len() - 1] == dm[dm.len() - 1]);
    if n >= 10 && m >= 10 {
        assert(decimal(n / 10) =~= dn.drop_last());
        assert(decimal(m / 10) =~= dm.drop_last());
        lemma_decimal_injective(n / 10, m / 10);
    }
}

/// Different keys that LÖVE names get different names, so a game tells them apart.
pub proof fn law_named_keys_are_told_apart(a: KeyCode, b: KeyCode)
    requires
        has_key_name(a),
        has_key_name(b),
        a != b,
    ensures
        love_key_name(a) != love_key_name(b),
{
    reveal_strlit("return");
    reveal_strlit("backspace");
    reveal_strlit("left");
    reveal_strlit("right");
    reveal_strlit("up");
    reveal_strlit("down");
    reveal_strlit("escape");
    reveal_strlit("tab");
    reveal_strlit("delete");
    reveal_strlit("insert");
    reveal_strlit("home");
    reveal_strlit("end");
    reveal_strlit("pageup");
    reveal_strlit("pagedown");
    reveal_strlit("capslock");
    reveal_strlit("lshift");
    reveal_strlit("rshift");
    reveal_strlit("lctrl");
    reveal_strlit("rctrl");
    reveal_strlit("lalt");
    reveal_strlit("ralt");
    let na = love_key_name(a);
    let nb = love_key_name(b);
    if na == nb {
        match (a, b) {
            (KeyCode::F(x), KeyCode::F(y)) => {
                assert(decimal(x as nat) =~= na.subrange(1, na.len() as int));
                assert(decimal(y as nat) =~= nb.subrange(1, nb.len() as int));
                lemma_decimal_injective(x as nat, y as nat);
            },
            _ => {
                assert(na.len() == nb.len());
                assert(na[0] == nb[0]);
                assert(na[1] == nb[1]);
            },
        }
    }
}

} // verus!
