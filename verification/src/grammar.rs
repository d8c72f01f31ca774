//! What a configuration text means: the variable table and the keybinds that it
//! denotes, or the line at which it is refused. The parser is proved against
//! these definitions.

use crate::display::Modifier;
use crate::error::ParseFault;
use crate::text::{is_graphic, join, lower, split, words};
use vstd::prelude::*;

verus! {

/// A keybind as plain values.
pub struct KeybindModel {
    pub key: Seq<char>,
    pub modifiers: u32,
    pub command: Seq<char>,
}

/// A configuration as plain values.
#[verifier::ext_equal]
pub struct ConfigModel {
    pub vars: Map<Seq<char>, Seq<char>>,
    pub keybinds: Seq<KeybindModel>,
}

/// What one `+`-separated piece of a trigger stands for.
pub enum Token {
    Modifier(Modifier),
    Key(Seq<char>),
    Unknown,
}

impl ConfigModel {
    /// The configuration of an empty text.
    pub open spec fn empty() -> ConfigModel {
        ConfigModel { vars: Map::empty(), keybinds: Seq::empty() }
    }

    /// Whether some keybind has this trigger and these modifiers.
    pub open spec fn binds(self, key: Seq<char>, modifiers: u32) -> bool {
        exists|i: int|
            0 <= i < self.keybinds.len() && (#[trigger] self.keybinds[i]).key == key
                && self.keybinds[i].modifiers == modifiers
    }
}

/// The variable table that a list of names and values stands for; a later
/// entry replaces an earlier one of the same name.
pub open spec fn table(entries: Seq<(Seq<char>, Seq<char>)>) -> Map<Seq<char>, Seq<char>>
    decreases entries.len(),
{
    if entries.len() == 0 {
        Map::empty()
    } else {
        table(entries.drop_last()).insert(entries.last().0, entries.last().1)
    }
}

/// The value of a variable reference: a word without a leading `$` stands for
/// itself, `$name` for the value stored under `name`.
pub open spec fn lookup(vars: Map<Seq<char>, Seq<char>>, var: Seq<char>) -> Result<
    Seq<char>,
    ParseFault,
> {
    if var.len() > 0 && var[0] == '$' {
        if vars.contains_key(var.skip(1)) {
            Ok(vars[var.skip(1)])
        } else {
            Err(ParseFault::InvalidVariable)
        }
    } else {
        Ok(var)
    }
}

/// The meaning of a trigger piece that is already in lower case.
pub open spec fn classify(t: Seq<char>) -> Token {
    if t.len() == 1 && is_graphic(t[0]) {
        Token::Key(t)
    } else if t == "mod1"@ || t == "alt"@ {
        Token::Modifier(Modifier::Mod1)
    } else if t == "mod2"@ {
        Token::Modifier(Modifier::Mod2)
    } else if t == "mod3"@ {
        Token::Modifier(Modifier::Mod3)
    } else if t == "mod4"@ {
        Token::Modifier(Modifier::Mod4)
    } else if t == "mod5"@ {
        Token::Modifier(Modifier::Mod5)
    } else if t == "shift"@ {
        Token::Modifier(Modifier::Shift)
    } else if t == "ctrl"@ || t == "control"@ {
        Token::Modifier(Modifier::Control)
    } else if t == "escape"@ {
        Token::Key("Escape"@)
    } else if t == "enter"@ || t == "return"@ {
        Token::Key("Return"@)
    } else {
        Token::Unknown
    }
}

/// The meanings of the pieces of a trigger, each resolved through the
/// variables and folded to lower case first.
pub open spec fn tokens(vars: Map<Seq<char>, Seq<char>>, pieces: Seq<Seq<char>>) -> Seq<Token> {
    Seq::new(pieces.len(), |i: int| classify(lower(lookup(vars, pieces[i]).unwrap())))
}

/// How many of the tokens are main keys.
pub open spec fn key_count(ts: Seq<Token>) -> nat
    decreases ts.len(),
{
    if ts.len() == 0 {
        0
    } else if ts.last() is Key {
        key_count(ts.drop_last()) + 1
    } else {
        key_count(ts.drop_last())
    }
}

/// The last main key among the tokens.
pub open spec fn main_key(ts: Seq<Token>) -> Seq<char>
    decreases ts.len(),
{
    if ts.len() == 0 {
        Seq::empty()
    } else {
        match ts.last() {
            Token::Key(k) => k,
            _ => main_key(ts.drop_last()),
        }
    }
}

/// The bits of all modifiers among the tokens.
pub open spec fn mask_of(ts: Seq<Token>) -> u32
    decreases ts.len(),
{
    if ts.len() == 0 {
        0
    } else {
        match ts.last() {
            Token::Modifier(m) => mask_of(ts.drop_last()) | m.bit(),
            _ => mask_of(ts.drop_last()),
        }
    }
}

/// The trigger key and modifier mask that the text of a trigger denotes.
///
/// Every piece must resolve; then every piece must be a modifier or a main
/// key, and exactly one of them a main key.
pub open spec fn trigger(vars: Map<Seq<char>, Seq<char>>, text: Seq<char>) -> Result<
    (Seq<char>, u32),
    ParseFault,
> {
    let pieces = split(text, '+');
    let ts = tokens(vars, pieces);
    if exists|i: int| 0 <= i < pieces.len() && lookup(vars, #[trigger] pieces[i]) is Err {
        Err(ParseFault::InvalidVariable)
    } else if (exists|i: int| 0 <= i < ts.len() && #[trigger] ts[i] is Unknown) || key_count(ts)
        != 1 {
        Err(ParseFault::InvalidKeybindSpec)
    } else {
        Ok((main_key(ts), mask_of(ts)))
    }
}

/// The effect of `set` with the words that follow it.
pub open spec fn set(c: ConfigModel, args: Seq<Seq<char>>) -> Result<ConfigModel, ParseFault> {
    if args.len() != 2 {
        Err(ParseFault::SetArguments)
    } else {
        match lookup(c.vars, args[1]) {
            Err(f) => Err(f),
            Ok(value) => Ok(ConfigModel { vars: c.vars.insert(args[0], value), ..c }),
        }
    }
}

/// The effect of `bind` with the words that follow it.
pub open spec fn bind(c: ConfigModel, args: Seq<Seq<char>>) -> Result<ConfigModel, ParseFault> {
    if args.len() < 2 {
        Err(ParseFault::BindArguments)
    } else {
        match trigger(c.vars, args[0]) {
            Err(f) => Err(f),
            Ok((key, modifiers)) => {
                if args.len() == 2 && args[1] == "exec"@ {
                    Err(ParseFault::MissingProgram)
                } else if c.binds(key, modifiers) {
                    Err(ParseFault::DuplicateKeybind)
                } else {
                    Ok(
                        ConfigModel {
                            keybinds: c.keybinds.push(
                                KeybindModel { key, modifiers, command: join(args.skip(1)) },
                            ),
                            ..c
                        },
                    )
                }
            },
        }
    }
}

/// The effect of one line. A line without words, or whose first word starts
/// with `#`, has none.
pub open spec fn line(c: ConfigModel, text: Seq<char>) -> Result<ConfigModel, ParseFault> {
    let ws = words(text);
    if ws.len() == 0 || (ws[0].len() > 0 && ws[0][0] == '#') {
        Ok(c)
    } else if ws[0] == "set"@ {
        set(c, ws.skip(1))
    } else if ws[0] == "bind"@ {
        bind(c, ws.skip(1))
    } else {
        Err(ParseFault::InvalidCommand)
    }
}

/// The effect of a run of lines, of which `done` lines came before: the
/// configuration after the last line, or the number of the first line that is
/// refused and why.
pub open spec fn lines(c: ConfigModel, rest: Seq<Seq<char>>, done: nat) -> Result<
    ConfigModel,
    (nat, ParseFault),
>
    decreases rest.len(),
{
    if rest.len() == 0 {
        Ok(c)
    } else {
        match line(c, rest[0]) {
            Err(f) => Err((done + 1, f)),
            Ok(next) => lines(next, rest.drop_first(), done + 1),
        }
    }
}

/// The meaning of a whole configuration text.
pub open spec fn parse(text: Seq<char>) -> Result<ConfigModel, (nat, ParseFault)> {
    lines(ConfigModel::empty(), split(text, '\n'), 0)
}

impl KeybindModel {
    /// Whether a key press of `key` with `modifiers` held triggers this rule:
    /// the key is the rule's, and every modifier of the rule is held. More
    /// modifiers than the rule asks for do not prevent it.
    pub open spec fn triggered_by(self, key: Seq<char>, modifiers: u32) -> bool {
        self.key == key && modifiers & self.modifiers == self.modifiers
    }
}

/// The command of the first keybind that a key press triggers, if any does.
pub open spec fn resolve(binds: Seq<KeybindModel>, key: Seq<char>, modifiers: u32) -> Option<
    Seq<char>,
>
    decreases binds.len(),
{
    if binds.len() == 0 {
        None
    } else if binds[0].triggered_by(key, modifiers) {
        Some(binds[0].command)
    } else {
        resolve(binds.drop_first(), key, modifiers)
    }
}

/// The value of a decimal digit.
pub open spec fn digit(c: char) -> Option<nat> {
    if '0' <= c <= '9' {
        Some((c as u32 - 0x30) as nat)
    } else {
        None
    }
}

/// The number that a non-empty run of decimal digits writes; anything else
/// writes none.
pub open spec fn number(s: Seq<char>) -> Option<nat>
    decreases s.len(),
{
    if s.len() == 0 {
        None
    } else {
        match digit(s.last()) {
            None => None,
            Some(d) => if s.len() == 1 {
                Some(d)
            } else {
                match number(s.drop_last()) {
                    None => None,
                    Some(n) => Some(n * 10 + d),
                }
            },
        }
    }
}

/// A built-in action of the window manager.
pub enum CommandModel {
    Exit,
    Exec { program: Seq<char>, args: Seq<Seq<char>> },
    Workspace(usize),
    Move(usize),
    Nothing,
}

/// The workspace that the second word of a command names: the word is
/// resolved through the variables and must then write a positive number that
/// fits the machine word.
pub open spec fn workspace_id(vars: Map<Seq<char>, Seq<char>>, ws: Seq<Seq<char>>) -> Option<
    usize,
> {
    if ws.len() < 2 {
        None
    } else {
        match lookup(vars, ws[1]) {
            Err(_) => None,
            Ok(v) => match number(v) {
                None => None,
                Some(n) => if 1 <= n <= usize::MAX {
                    Some(n as usize)
                } else {
                    None
                },
            },
        }
    }
}

/// The action that a command string selects by its first word. A command
/// that names no usable workspace, or no program, selects nothing.
pub open spec fn decode(vars: Map<Seq<char>, Seq<char>>, command: Seq<char>) -> CommandModel {
    let ws = words(command);
    if ws.len() == 0 {
        CommandModel::Nothing
    } else if ws[0] == "exit"@ {
        CommandModel::Exit
    } else if ws[0] == "exec"@ {
        if ws.len() >= 2 {
            CommandModel::Exec { program: ws[1], args: ws.skip(2) }
        } else {
            CommandModel::Nothing
        }
    } else if ws[0] == "ws"@ || ws[0] == "workspace"@ {
        match workspace_id(vars, ws) {
            Some(id) => CommandModel::Workspace(id),
            None => CommandModel::Nothing,
        }
    } else if ws[0] == "move"@ {
        match workspace_id(vars, ws) {
            Some(id) => CommandModel::Move(id),
            None => CommandModel::Nothing,
        }
    } else {
        CommandModel::Nothing
    }
}

} // verus!
