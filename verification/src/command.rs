//! The fixed vocabulary of built-in actions, decoded from the command string
//! of a keybind.

use crate::config::Config;
use crate::grammar;
use crate::grammar::CommandModel;
use crate::text::{chars_of, same_chars, split_words, string_of, texts, views};
use vstd::prelude::*;

verus! {

/// A built-in action.
#[derive(Debug)]
pub enum Command {
    /// Stop the event loop.
    Exit,
    /// Launch `program` with `args`, detached.
    Exec { program: String, args: Vec<String> },
    /// Make this workspace the active one.
    Workspace(usize),
    /// Move the focused window to this workspace.
    Move(usize),
    /// Do nothing.
    Nothing,
}

impl View for Command {
    type V = CommandModel;

    open spec fn view(&self) -> CommandModel {
        match self {
            Command::Exit => CommandModel::Exit,
            Command::Exec { program, args } => CommandModel::Exec {
                program: program@,
                args: texts(args@),
            },
            Command::Workspace(id) => CommandModel::Workspace(*id),
            Command::Move(id) => CommandModel::Move(*id),
            Command::Nothing => CommandModel::Nothing,
        }
    }
}

/// A number is at least every number that a prefix of its digits writes.
proof fn lemma_number_prefix(s: Seq<char>, k: int)
    requires
        1 <= k <= s.len(),
        grammar::number(s) is Some,
    ensures
        grammar::number(s.take(k)) is Some,
        grammar::number(s.take(k)).unwrap() <= grammar::number(s).unwrap(),
    decreases s.len(),
{
    if k == s.len() {
        assert(s.take(k) == s);
    } else {
        assert(s.drop_last().take(k) == s.take(k));
        lemma_number_prefix(s.drop_last(), k);
    }
}

/// The number that `v` writes in decimal digits, if it writes one that fits.
pub fn parse_number(v: &Vec<char>) -> (r: Option<usize>)
    ensures
        r == match grammar::number(v@) {
            Some(n) => if n <= usize::MAX {
                Some(n as usize)
            } else {
                None
            },
            None => None,
        },
{
    if v.len() == 0 {
        return None;
    }
    let mut acc: usize = 0;
    let mut i: usize = 0;
    while i < v.len()
        invariant
            i <= v.len(),
            i > 0 ==> grammar::number(v@.take(i as int)) == Some(acc as nat),
            i == 0 ==> acc == 0,
        decreases v.len() - i,
    {
        let c = v[i];
        let ghost next = v@.take(i + 1);
        assert(next.drop_last() == v@.take(i as int));
        assert(next.last() == c);
        if !('0' <= c && c <= '9') {
            proof {
                if grammar::number(v@) is Some {
                    lemma_number_prefix(v@, i + 1);
                }
            }
            return None;
        }
        let d: usize = (c as u32 - 0x30) as usize;
        if acc > (usize::MAX - d) / 10 {
            proof {
                assert(acc * 10 + d > usize::MAX) by (nonlinear_arith)
                    requires
                        acc > (usize::MAX - d) / 10,
                        0 <= d <= 9,
                ;
                if grammar::number(v@) is Some {
                    lemma_number_prefix(v@, i + 1);
                }
            }
            return None;
        }
        assert(acc * 10 + d <= usize::MAX) by (nonlinear_arith)
            requires
                acc <= (usize::MAX - d) / 10,
                0 <= d <= 9,
        ;
        acc = acc * 10 + d;
        i += 1;
    }
    assert(v@.take(v.len() as int) == v@);
    Some(acc)
}

/// The workspace that the second word of a command names.
fn workspace_of(config: &Config, ws: &Vec<Vec<char>>) -> (r: Option<usize>)
    ensures
        r == grammar::workspace_id(config@.vars, views(ws@)),
{
    if ws.len() < 2 {
        return None;
    }
    assert(views(ws@)[1] == ws@[1]@);
    match config.value_of(&ws[1]) {
        Err(_) => None,
        Ok(v) => match parse_number(&v) {
            Some(n) => if n >= 1 {
                Some(n)
            } else {
                None
            },
            None => None,
        },
    }
}

impl Command {
    /// Decodes a command string: its first word selects the action.
    pub fn decode(config: &Config, command: &str) -> (c: Command)
        ensures
            c@ == grammar::decode(config@.vars, command@),
    {
        let chars = chars_of(command);
        let ws = split_words(&chars);
        if ws.len() == 0 {
            return Command::Nothing;
        }
        assert(views(ws@)[0] == ws@[0]@);
        if same_chars(&ws[0], "exit") {
            Command::Exit
        } else if same_chars(&ws[0], "exec") {
            if ws.len() >= 2 {
                let program = string_of(&ws[1], 0, ws[1].len());
                assert(program@ == views(ws@)[1]);
                let mut args: Vec<String> = Vec::new();
                let mut i: usize = 2;
                while i < ws.len()
                    invariant
                        2 <= i <= ws.len(),
                        texts(args@) == views(ws@).subrange(2, i as int),
                    decreases ws.len() - i,
                {
                    let a = string_of(&ws[i], 0, ws[i].len());
                    assert(a@ == ws@[i as int]@);
                    let ghost before = args@;
                    args.push(a);
                    assert(texts(args@) =~= texts(before).push(a@));
                    assert(views(ws@).subrange(2, i + 1) =~= views(ws@).subrange(2, i as int).push(
                        a@,
                    ));
                    i += 1;
                }
                assert(views(ws@).subrange(2, ws.len() as int) == views(ws@).skip(2));
                Command::Exec { program, args }
            } else {
                Command::Nothing
            }
        } else if same_chars(&ws[0], "ws") || same_chars(&ws[0], "workspace") {
            match workspace_of(config, &ws) {
                Some(id) => Command::Workspace(id),
                None => Command::Nothing,
            }
        } else if same_chars(&ws[0], "move") {
            match workspace_of(config, &ws) {
                Some(id) => Command::Move(id),
                None => Command::Nothing,
            }
        } else {
            Command::Nothing
        }
    }
}

} // verus!
