//! The configuration: a table of variables and the keybinds, built once from
//! the text of a configuration file.

use crate::display::Modifier;
use crate::error::{Error, ParseFault};
use crate::grammar;
use crate::grammar::{table, ConfigModel, KeybindModel, Token};
use crate::keybind::Keybind;
use crate::roundtrip::{
    all_words, bind_line, bind_lines, command_ok, held, is_plain_word, is_word, key_ok,
    law_round_trip, lemma_terminated_concat,
    lemma_words_are_words, lemma_words_of_join, mask_ok, modifier_name, modifier_names,
    modifier_order, serialize, set_line, set_lines, terminated, trigger_text, well_formed,
    writable,
};
use crate::text::{
    chars_of, join, lower, lower_char, lower_of, same_chars, slice_of, split, split_fields,
    split_words, string_of, views,
};
use vstd::prelude::*;

verus! {

/// The names and values of a list of stored variables.
pub open spec fn entries(vars: Seq<(Vec<char>, Vec<char>)>) -> Seq<(Seq<char>, Seq<char>)> {
    Seq::new(vars.len(), |i: int| (vars[i].0@, vars[i].1@))
}

/// No two entries have the same name.
pub open spec fn distinct_names(entries: Seq<(Seq<char>, Seq<char>)>) -> bool {
    forall|i: int, j: int|
        0 <= i < j < entries.len() ==> (#[trigger] entries[i]).0 != (#[trigger] entries[j]).0
}

/// The names and values of a list of variables as strings.
pub open spec fn pairs(list: Seq<(String, String)>) -> Seq<(Seq<char>, Seq<char>)> {
    Seq::new(list.len(), |i: int| (list[i].0@, list[i].1@))
}

/// The models of a list of keybinds.
pub open spec fn models(binds: Seq<Keybind>) -> Seq<KeybindModel> {
    Seq::new(binds.len(), |i: int| binds[i]@)
}

/// A name that no entry has is not in the table.
proof fn lemma_table_absent(entries: Seq<(Seq<char>, Seq<char>)>, name: Seq<char>)
    requires
        forall|i: int| 0 <= i < entries.len() ==> (#[trigger] entries[i]).0 != name,
    ensures
        !table(entries).contains_key(name),
    decreases entries.len(),
{
    if entries.len() > 0 {
        lemma_table_absent(entries.drop_last(), name);
    }
}

/// Where names are distinct, the table maps the name of each entry to its
/// value.
proof fn lemma_table_present(entries: Seq<(Seq<char>, Seq<char>)>, i: int)
    requires
        distinct_names(entries),
        0 <= i < entries.len(),
    ensures
        table(entries).contains_key(entries[i].0),
        table(entries)[entries[i].0] == entries[i].1,
    decreases entries.len(),
{
    if i < entries.len() - 1 {
        lemma_table_present(entries.drop_last(), i);
        assert(entries.drop_last()[i] == entries[i]);
        assert(entries.last() == entries[entries.len() - 1]);
    }
}

/// Replacing the value of an entry replaces it in the table.
proof fn lemma_table_update(
    entries: Seq<(Seq<char>, Seq<char>)>,
    i: int,
    entry: (Seq<char>, Seq<char>),
)
    requires
        distinct_names(entries),
        0 <= i < entries.len(),
        entries[i].0 == entry.0,
    ensures
        table(entries.update(i, entry)) == table(entries).insert(entry.0, entry.1),
        distinct_names(entries.update(i, entry)),
    decreases entries.len(),
{
    let updated = entries.update(i, entry);
    if i == entries.len() - 1 {
        assert(updated.drop_last() == entries.drop_last());
        assert(table(updated) =~= table(entries).insert(entry.0, entry.1));
    } else {
        assert(updated.drop_last() == entries.drop_last().update(i, entry));
        lemma_table_update(entries.drop_last(), i, entry);
        assert(entries.last() == entries[entries.len() - 1]);
        assert(entries.last().0 != entries[i].0);
        assert(table(updated) =~= table(entries).insert(entry.0, entry.1));
    }
    assert forall|a: int, b: int| 0 <= a < b < updated.len() implies (#[trigger] updated[a]).0 != (
    #[trigger] updated[b]).0 by {
        assert(updated[a].0 == entries[a].0);
        assert(updated[b].0 == entries[b].0);
    }
}

/// Adding an entry with a new name adds it to the table.
proof fn lemma_table_push(entries: Seq<(Seq<char>, Seq<char>)>, entry: (Seq<char>, Seq<char>))
    requires
        distinct_names(entries),
        forall|i: int| 0 <= i < entries.len() ==> (#[trigger] entries[i]).0 != entry.0,
    ensures
        table(entries.push(entry)) == table(entries).insert(entry.0, entry.1),
        distinct_names(entries.push(entry)),
{
    let pushed = entries.push(entry);
    assert(pushed.drop_last() == entries);
    assert forall|a: int, b: int| 0 <= a < b < pushed.len() implies (#[trigger] pushed[a]).0 != (
    #[trigger] pushed[b]).0 by {
        assert(pushed[a] == entries[a]);
        if b < entries.len() {
            assert(pushed[b] == entries[b]);
        }
    }
}

/// Whether `a` and `b` hold the same characters.
fn equal_chars(a: &Vec<char>, b: &Vec<char>) -> (r: bool)
    ensures
        r == (a@ == b@),
{
    if a.len() != b.len() {
        return false;
    }
    let mut i: usize = 0;
    while i < a.len()
        invariant
            i <= a.len(),
            a.len() == b.len(),
            forall|k: int| 0 <= k < i ==> a@[k] == b@[k],
        decreases a.len() - i,
    {
        if a[i] != b[i] {
            return false;
        }
        i += 1;
    }
    assert(a@ =~= b@);
    true
}

/// The meaning of one piece of a trigger, as the parser holds it.
enum Piece {
    Modifier(Modifier),
    Key(String),
    Unknown,
}

impl Piece {
    spec fn token(self) -> Token {
        match self {
            Piece::Modifier(m) => Token::Modifier(m),
            Piece::Key(k) => Token::Key(k@),
            Piece::Unknown => Token::Unknown,
        }
    }
}

/// Classifies a trigger piece that is already in lower case.
fn classify(t: &Vec<char>) -> (p: Piece)
    ensures
        p.token() == grammar::classify(t@),
{
    if t.len() == 1 && 0x21 <= t[0] as u32 && t[0] as u32 <= 0x7E {
        let k = string_of(t, 0, 1);
        assert(k@ == t@);
        Piece::Key(k)
    } else if same_chars(t, "mod1") || same_chars(t, "alt") {
        Piece::Modifier(Modifier::Mod1)
    } else if same_chars(t, "mod2") {
        Piece::Modifier(Modifier::Mod2)
    } else if same_chars(t, "mod3") {
        Piece::Modifier(Modifier::Mod3)
    } else if same_chars(t, "mod4") {
        Piece::Modifier(Modifier::Mod4)
    } else if same_chars(t, "mod5") {
        Piece::Modifier(Modifier::Mod5)
    } else if same_chars(t, "shift") {
        Piece::Modifier(Modifier::Shift)
    } else if same_chars(t, "ctrl") || same_chars(t, "control") {
        Piece::Modifier(Modifier::Control)
    } else if same_chars(t, "escape") {
        Piece::Key("Escape".to_owned())
    } else if same_chars(t, "enter") || same_chars(t, "return") {
        Piece::Key("Return".to_owned())
    } else {
        Piece::Unknown
    }
}

/// Appends the characters of `v` to `s`.
fn append_chars(s: &mut String, v: &Vec<char>)
    ensures
        final(s)@ == old(s)@ + v@,
{
    let mut i: usize = 0;
    while i < v.len()
        invariant
            i <= v.len(),
            s@ == old(s)@ + v@.take(i as int),
        decreases v.len() - i,
    {
        s.push(v[i]);
        i += 1;
    }
    assert(v@.take(v.len() as int) == v@);
}

/// The words of `ws` from index `from` on, with one space between neighbours.
fn join_words(ws: &Vec<Vec<char>>, from: usize) -> (s: String)
    requires
        from <= ws.len(),
    ensures
        s@ == join(views(ws@).skip(from as int)),
{
    let ghost all = views(ws@);
    let mut s = String::new();
    let mut k: usize = from;
    assert(all.subrange(from as int, from as int) == Seq::<Seq<char>>::empty());
    while k < ws.len()
        invariant
            from <= k <= ws.len(),
            all == views(ws@),
            s@ == join(all.subrange(from as int, k as int)),
        decreases ws.len() - k,
    {
        let ghost next = all.subrange(from as int, k + 1);
        assert(next.drop_last() == all.subrange(from as int, k as int));
        assert(next.last() == ws@[k as int]@);
        if k > from {
            s.push(' ');
        }
        append_chars(&mut s, &ws[k]);
        assert(s@ == join(next)) by {
            if k > from {
                assert(s@ == join(next.drop_last()) + seq![' '] + next.last());
            } else {
                assert(next.len() == 1);
                assert(next[0] == next.last());
                assert(s@ == next[0]);
            }
        }
        k += 1;
    }
    assert(all.subrange(from as int, ws.len() as int) == all.skip(from as int));
    s
}

/// The name under which a modifier is written.
fn name_of(m: Modifier) -> (name: &'static str)
    ensures
        name@ == modifier_name(m),
{
    match m {
        Modifier::Shift => "shift",
        Modifier::Control => "ctrl",
        Modifier::Mod1 => "mod1",
        Modifier::Mod2 => "mod2",
        Modifier::Mod3 => "mod3",
        Modifier::Mod4 => "mod4",
        Modifier::Mod5 => "mod5",
    }
}

/// Appends the trigger of a keybind as it is written.
fn write_trigger(s: &mut String, key: &String, mask: u32)
    ensures
        final(s)@ == old(s)@ + trigger_text(key@, mask),
{
    let order: Vec<Modifier> = vec![
        Modifier::Shift,
        Modifier::Control,
        Modifier::Mod1,
        Modifier::Mod2,
        Modifier::Mod3,
        Modifier::Mod4,
        Modifier::Mod5,
    ];
    assert(order@ =~= modifier_order());
    let mut i: usize = 0;
    assert(order@.take(0) == Seq::<Modifier>::empty());
    assert(s@ == old(s)@ + Seq::<char>::empty());
    while i < order.len()
        invariant
            i <= order.len(),
            order@ == modifier_order(),
            s@ == old(s)@ + terminated(modifier_names(held(mask, order@.take(i as int))), '+'),
        decreases order.len() - i,
    {
        let m = order[i];
        let ghost before = order@.take(i as int);
        let ghost after = order@.take(i + 1);
        assert(after.drop_last() == before);
        assert(after.last() == m);
        if mask & m.mask() != 0 {
            s.append(name_of(m));
            s.push('+');
            proof {
                let names = modifier_names(held(mask, after));
                assert(names.drop_last() == modifier_names(held(mask, before)));
                assert(names.last() == modifier_name(m));
                assert(s@ =~= old(s)@ + terminated(names, '+'));
            }
        }
        i += 1;
    }
    assert(order@.take(order.len() as int) == order@);
    s.append(key.as_str());
    assert(s@ =~= old(s)@ + trigger_text(key@, mask));
}

/// The variables and keybinds of one configuration.
pub struct Config {
    vars: Vec<(Vec<char>, Vec<char>)>,
    keybinds: Vec<Keybind>,
}

impl View for Config {
    type V = ConfigModel;

    closed spec fn view(&self) -> ConfigModel {
        ConfigModel { vars: table(entries(self.vars@)), keybinds: models(self.keybinds@) }
    }
}

impl Default for Config {
    fn default() -> (c: Self)
        ensures
            c@ == ConfigModel::empty(),
            c.variables().len() == 0,
    {
        let c = Config { vars: Vec::new(), keybinds: Vec::new() };
        assert(c@ =~= ConfigModel::empty());
        c
    }
}

impl Config {
    #[verifier::type_invariant]
    spec fn is_well_formed(&self) -> bool {
        distinct_names(entries(self.vars@)) && well_formed(
            entries(self.vars@),
            models(self.keybinds@),
        )
    }

    /// Where the variable `name` is stored, if it is set.
    fn position(&self, name: &Vec<char>) -> (at: Option<usize>)
        ensures
            match at {
                Some(i) => i < self.vars@.len() && self.vars@[i as int].0@ == name@,
                None => forall|i: int|
                    0 <= i < self.vars@.len() ==> (#[trigger] self.vars@[i]).0@ != name@,
            },
    {
        let mut i: usize = 0;
        while i < self.vars.len()
            invariant
                i <= self.vars@.len(),
                forall|k: int| 0 <= k < i ==> (#[trigger] self.vars@[k]).0@ != name@,
            decreases self.vars@.len() - i,
        {
            if equal_chars(&self.vars[i].0, name) {
                return Some(i);
            }
            i += 1;
        }
        None
    }

    /// The value that the word `var` stands for.
    pub(crate) fn value_of(&self, var: &Vec<char>) -> (r: Result<Vec<char>, ParseFault>)
        ensures
            match grammar::lookup(self@.vars, var@) {
                Ok(v) => r matches Ok(w) && w@ == v,
                Err(f) => r == Err::<Vec<char>, ParseFault>(f),
            },
            r matches Ok(w) ==> (w@.len() > 0 ==> w@[0] != '$') && (is_word(var@) ==> is_word(w@)),
    {
        proof {
            use_type_invariant(self);
        }
        if var.len() > 0 && var[0] == '$' {
            let name = slice_of(var, 1, var.len());
            assert(name@ == var@.skip(1));
            match self.position(&name) {
                Some(i) => {
                    proof {
                        lemma_table_present(entries(self.vars@), i as int);
                    }
                    let w = slice_of(&self.vars[i].1, 0, self.vars[i].1.len());
                    assert(w@ == self.vars@[i as int].1@);
                    assert(is_plain_word(entries(self.vars@)[i as int].1));
                    Ok(w)
                },
                None => {
                    proof {
                        lemma_table_absent(entries(self.vars@), name@);
                    }
                    Err(ParseFault::InvalidVariable)
                },
            }
        } else {
            let w = slice_of(var, 0, var.len());
            assert(w@ == var@);
            Ok(w)
        }
    }

    /// Takes a variable reference and returns its value: a word without a
    /// leading `$` is returned as it is, `$name` gives the value of `name`
    /// and fails if `name` was never set.
    pub fn get_var(&self, var: &str) -> (r: Result<String, ParseFault>)
        ensures
            match grammar::lookup(self@.vars, var@) {
                Ok(v) => r matches Ok(s) && s@ == v,
                Err(f) => r == Err::<String, ParseFault>(f),
            },
    {
        let chars = chars_of(var);
        match self.value_of(&chars) {
            Ok(w) => {
                let s = string_of(&w, 0, w.len());
                assert(s@ == w@);
                Ok(s)
            },
            Err(f) => Err(f),
        }
    }

    /// Applies `set` to the words that follow it on the line.
    fn set(&mut self, args: &Vec<Vec<char>>) -> (r: Result<(), ParseFault>)
        requires
            all_words(views(args@)),
        ensures
            match grammar::set(old(self)@, views(args@)) {
                Ok(c) => r is Ok && final(self)@ == c,
                Err(f) => r == Err::<(), ParseFault>(f) && final(self)@ == old(self)@,
            },
    {
        proof {
            use_type_invariant(&*self);
        }
        if args.len() != 2 {
            return Err(ParseFault::SetArguments);
        }
        assert(views(args@)[0] == args@[0]@ && views(args@)[1] == args@[1]@);
        let value = match self.value_of(&args[1]) {
            Ok(v) => v,
            Err(f) => {
                return Err(f);
            },
        };
        let name = slice_of(&args[0], 0, args[0].len());
        assert(name@ == args@[0]@);
        assert(is_word(views(args@)[0]) && is_word(views(args@)[1]));
        assert(is_word(name@) && is_plain_word(value@));
        let at = self.position(&name);
        let mut vars: Vec<(Vec<char>, Vec<char>)> = Vec::new();
        core::mem::swap(&mut self.vars, &mut vars);
        let ghost before = entries(vars@);
        match at {
            Some(i) => {
                proof {
                    lemma_table_update(before, i as int, (name@, value@));
                }
                vars.set(i, (name, value));
                assert(entries(vars@) =~= before.update(i as int, (name@, value@)));
                assert forall|k: int| 0 <= k < entries(vars@).len() implies is_word(
                    (#[trigger] entries(vars@)[k]).0,
                ) && is_plain_word(entries(vars@)[k].1) by {
                    if k != i {
                        assert(entries(vars@)[k] == before[k]);
                    }
                }
            },
            None => {
                proof {
                    lemma_table_push(before, (name@, value@));
                }
                vars.push((name, value));
                assert(entries(vars@) =~= before.push((name@, value@)));
                assert forall|k: int| 0 <= k < entries(vars@).len() implies is_word(
                    (#[trigger] entries(vars@)[k]).0,
                ) && is_plain_word(entries(vars@)[k].1) by {
                    if k < before.len() {
                        assert(entries(vars@)[k] == before[k]);
                    }
                }
            },
        }
        core::mem::swap(&mut self.vars, &mut vars);
        assert(final(self)@ =~= grammar::set(old(self)@, views(args@)).unwrap());
        Ok(())
    }

    /// The trigger key and modifier mask that the pieces of a trigger denote.
    fn trigger_of(&self, text: &Vec<char>) -> (r: Result<(String, u32), ParseFault>)
        ensures
            match grammar::trigger(self@.vars, text@) {
                Ok((key, modifiers)) => r matches Ok(p) && p.0@ == key && p.1 == modifiers,
                Err(f) => r == Err::<(String, u32), ParseFault>(f),
            },
            r matches Ok(p) ==> key_ok(p.0@) && mask_ok(p.1),
    {
        let pieces = split_fields(text, '+');
        let ghost names = split(text@, '+');
        let ghost ts = grammar::tokens(self@.vars, names);
        let mut expanded: Vec<Vec<char>> = Vec::new();
        let mut i: usize = 0;
        while i < pieces.len()
            invariant
                i <= pieces.len(),
                views(pieces@) == names,
                names == split(text@, '+'),
                expanded.len() == i,
                forall|k: int|
                    0 <= k < i ==> grammar::lookup(self@.vars, #[trigger] names[k]) is Ok,
                forall|k: int|
                    0 <= k < i ==> (#[trigger] expanded@[k])@ == lower(
                        grammar::lookup(self@.vars, names[k]).unwrap(),
                    ),
                forall|k: int|
                    0 <= k < i && (#[trigger] expanded@[k])@.len() > 0 ==> expanded@[k]@[0] != '$'
                        && !('A' <= expanded@[k]@[0] <= 'Z'),
            decreases pieces.len() - i,
        {
            assert(names[i as int] == pieces@[i as int]@);
            match self.value_of(&pieces[i]) {
                Ok(v) => {
                    let folded = lower_of(&v);
                    assert(folded@.len() > 0 ==> folded@[0] == lower_char(v@[0]));
                    expanded.push(folded);
                },
                Err(_) => {
                    return Err(ParseFault::InvalidVariable);
                },
            }
            i += 1;
        }
        let mut unknown = false;
        let mut count: usize = 0;
        let mut key = String::new();
        let mut modifiers: u32 = 0;
        let mut j: usize = 0;
        assert(ts.take(0) == Seq::<Token>::empty());
        assert(0u32 & 0xFD == 0u32) by (bit_vector);
        while j < expanded.len()
            invariant
                j <= expanded.len(),
                expanded.len() == ts.len(),
                mask_ok(modifiers),
                count > 0 ==> key_ok(key@),
                forall|k: int|
                    0 <= k < expanded.len() && (#[trigger] expanded@[k])@.len() > 0
                        ==> expanded@[k]@[0] != '$' && !('A' <= expanded@[k]@[0] <= 'Z'),
                forall|k: int|
                    0 <= k < ts.len() ==> ts[k] == grammar::classify((#[trigger] expanded@[k])@),
                unknown == (exists|k: int| 0 <= k < j && #[trigger] ts[k] is Unknown),
                count == grammar::key_count(ts.take(j as int)),
                count <= j,
                key@ == grammar::main_key(ts.take(j as int)),
                modifiers == grammar::mask_of(ts.take(j as int)),
            decreases expanded.len() - j,
        {
            let ghost before = ts.take(j as int);
            let ghost after = ts.take(j + 1);
            assert(after.drop_last() == before);
            assert(after.last() == ts[j as int]);
            match classify(&expanded[j]) {
                Piece::Modifier(m) => {
                    let bit = m.mask();
                    assert((modifiers | bit) & 0xFD == modifiers | bit) by (bit_vector)
                        requires
                            modifiers & 0xFD == modifiers,
                            bit == 0x01 || bit == 0x04 || bit == 0x08 || bit == 0x10 || bit
                                == 0x20 || bit == 0x40 || bit == 0x80,
                    ;
                    modifiers = modifiers | bit;
                },
                Piece::Key(k) => {
                    key = k;
                    count += 1;
                },
                Piece::Unknown => {
                    unknown = true;
                },
            }
            j += 1;
        }
        assert(ts.take(ts.len() as int) == ts);
        if unknown || count != 1 {
            Err(ParseFault::InvalidKeybindSpec)
        } else {
            Ok((key, modifiers))
        }
    }

    /// Verifies the trigger of a keybind, such as `mod1+shift+d`, and
    /// extracts its trigger key and modifier mask.
    pub fn verify_bind(&self, bind: &str) -> (r: Result<(String, u32), ParseFault>)
        ensures
            match grammar::trigger(self@.vars, bind@) {
                Ok((key, modifiers)) => r matches Ok(p) && p.0@ == key && p.1 == modifiers,
                Err(f) => r == Err::<(String, u32), ParseFault>(f),
            },
            r matches Ok(p) ==> key_ok(p.0@) && mask_ok(p.1),
    {
        let text = chars_of(bind);
        self.trigger_of(&text)
    }

    /// Whether some keybind has this trigger key and these modifiers.
    fn is_bound(&self, key: &String, modifiers: u32) -> (b: bool)
        ensures
            b == self@.binds(key@, modifiers),
    {
        let mut i: usize = 0;
        while i < self.keybinds.len()
            invariant
                i <= self.keybinds@.len(),
                forall|k: int|
                    0 <= k < i ==> !((#[trigger] self.keybinds@[k]).key@ == key@
                        && self.keybinds@[k].modifiers == modifiers),
            decreases self.keybinds@.len() - i,
        {
            if self.keybinds[i].key == *key && self.keybinds[i].modifiers == modifiers {
                assert(self@.keybinds[i as int] == self.keybinds@[i as int]@);
                return true;
            }
            i += 1;
        }
        assert forall|k: int| 0 <= k < self@.keybinds.len() implies !((
        #[trigger] self@.keybinds[k]).key == key@ && self@.keybinds[k].modifiers == modifiers) by {
            assert(self@.keybinds[k] == self.keybinds@[k]@);
        }
        false
    }

    /// Applies `bind` to the words that follow it on the line.
    fn bind(&mut self, args: &Vec<Vec<char>>) -> (r: Result<(), ParseFault>)
        requires
            all_words(views(args@)),
        ensures
            match grammar::bind(old(self)@, views(args@)) {
                Ok(c) => r is Ok && final(self)@ == c,
                Err(f) => r == Err::<(), ParseFault>(f) && final(self)@ == old(self)@,
            },
    {
        proof {
            use_type_invariant(&*self);
        }
        if args.len() < 2 {
            return Err(ParseFault::BindArguments);
        }
        assert(views(args@)[0] == args@[0]@ && views(args@)[1] == args@[1]@);
        let (key, modifiers) = match self.trigger_of(&args[0]) {
            Ok(p) => p,
            Err(f) => {
                return Err(f);
            },
        };
        if args.len() == 2 && same_chars(&args[1], "exec") {
            return Err(ParseFault::MissingProgram);
        }
        if self.is_bound(&key, modifiers) {
            return Err(ParseFault::DuplicateKeybind);
        }
        let command = join_words(args, 1);
        proof {
            let rest = views(args@).skip(1);
            assert(all_words(rest)) by {
                assert forall|i: int| 0 <= i < rest.len() implies is_word(#[trigger] rest[i]) by {
                    assert(rest[i] == views(args@)[i + 1]);
                }
            }
            lemma_words_of_join(rest);
            assert(rest[0] == views(args@)[1]);
            assert(command_ok(command@));
        }
        let keybind = Keybind { key, modifiers, command };
        let mut keybinds: Vec<Keybind> = Vec::new();
        core::mem::swap(&mut self.keybinds, &mut keybinds);
        let ghost before = models(keybinds@);
        keybinds.push(keybind);
        proof {
            let after = models(keybinds@);
            assert(after =~= before.push(keybind@));
            assert forall|i: int| 0 <= i < after.len() implies key_ok((#[trigger] after[i]).key)
                && mask_ok(after[i].modifiers) && command_ok(after[i].command) by {
                if i < before.len() {
                    assert(after[i] == before[i]);
                }
            }
            assert forall|i: int, j: int| 0 <= i < j < after.len() implies !((
            #[trigger] after[i]).key == (#[trigger] after[j]).key && after[i].modifiers
                == after[j].modifiers) by {
                assert(after[i] == before[i]);
                if j < before.len() {
                    assert(after[j] == before[j]);
                }
            }
        }
        core::mem::swap(&mut self.keybinds, &mut keybinds);
        assert(final(self)@ =~= grammar::bind(old(self)@, views(args@)).unwrap()) by {
            assert(models(old(self).keybinds@.push(keybind)) =~= models(old(self).keybinds@).push(
                keybind@,
            ));
        }
        Ok(())
    }

    /// Applies one line that is already split into characters.
    fn apply_line(&mut self, line: &Vec<char>) -> (r: Result<(), ParseFault>)
        ensures
            match grammar::line(old(self)@, line@) {
                Ok(c) => r is Ok && final(self)@ == c,
                Err(f) => r == Err::<(), ParseFault>(f) && final(self)@ == old(self)@,
            },
    {
        let mut ws = split_words(line);
        proof {
            lemma_words_are_words(line@);
        }
        if ws.len() == 0 {
            return Ok(());
        }
        assert(views(ws@)[0] == ws@[0]@);
        if ws[0].len() > 0 && ws[0][0] == '#' {
            return Ok(());
        }
        let is_set = same_chars(&ws[0], "set");
        let is_bind = same_chars(&ws[0], "bind");
        let ghost all = views(ws@);
        ws.remove(0);
        assert(views(ws@) == all.skip(1));
        assert(all_words(views(ws@))) by {
            assert forall|i: int| 0 <= i < views(ws@).len() implies is_word(
                #[trigger] views(ws@)[i],
            ) by {
                assert(views(ws@)[i] == all[i + 1]);
            }
        }
        if is_set {
            self.set(&ws)
        } else if is_bind {
            self.bind(&ws)
        } else {
            Err(ParseFault::InvalidCommand)
        }
    }

    /// Parses a single configuration line and applies it.
    pub fn configure_line(&mut self, line: &str) -> (r: Result<(), ParseFault>)
        ensures
            match grammar::line(old(self)@, line@) {
                Ok(c) => r is Ok && final(self)@ == c,
                Err(f) => r == Err::<(), ParseFault>(f) && final(self)@ == old(self)@,
            },
            well_formed(final(self).variables(), final(self)@.keybinds),
    {
        let chars = chars_of(line);
        let r = self.apply_line(&chars);
        proof {
            use_type_invariant(&*self);
        }
        r
    }

    /// Builds the configuration that a text denotes. Parsing stops at the
    /// first line that is refused, and the error names that line, counted
    /// from one.
    pub fn parse(config_str: &str) -> (r: Result<Self, Error>)
        ensures
            match grammar::parse(config_str@) {
                Ok(c) => r matches Ok(config) && config@ == c,
                Err((n, f)) => n <= usize::MAX && r == Err::<Self, Error>(
                    Error::ConfigParseError { line: n as usize, fault: f },
                ),
            },
            r matches Ok(config) ==> well_formed(config.variables(), config@.keybinds),
    {
        let chars = chars_of(config_str);
        let lines = split_fields(&chars, '\n');
        let ghost all = views(lines@);
        let mut config = Config::default();
        let mut i: usize = 0;
        assert(all.skip(0) == all);
        while i < lines.len()
            invariant
                i <= lines.len(),
                all == views(lines@),
                grammar::parse(config_str@) == grammar::lines(ConfigModel::empty(), all, 0),
                grammar::lines(ConfigModel::empty(), all, 0) == grammar::lines(
                    config@,
                    all.skip(i as int),
                    i as nat,
                ),
            decreases lines.len() - i,
        {
            let ghost rest = all.skip(i as int);
            assert(rest[0] == lines@[i as int]@);
            assert(rest.drop_first() == all.skip(i + 1));
            match config.apply_line(&lines[i]) {
                Ok(()) => {},
                Err(f) => {
                    return Err(Error::ConfigParseError { line: i + 1, fault: f });
                },
            }
            i += 1;
        }
        proof {
            use_type_invariant(&config);
        }
        Ok(config)
    }

    /// The keybinds, in the order in which they were bound.
    pub fn keybinds(&self) -> (binds: &Vec<Keybind>)
        ensures
            models(binds@) == self@.keybinds,
    {
        &self.keybinds
    }

    /// The command of the first keybind that a press of `key` with
    /// `modifiers` held triggers, if any does.
    pub fn resolve(&self, key: &str, modifiers: u32) -> (r: Option<String>)
        ensures
            match grammar::resolve(self@.keybinds, key@, modifiers) {
                Some(command) => r matches Some(c) && c@ == command,
                None => r is None,
            },
    {
        let ghost all = self@.keybinds;
        let mut i: usize = 0;
        assert(all.skip(0) == all);
        while i < self.keybinds.len()
            invariant
                i <= self.keybinds@.len(),
                all == self@.keybinds,
                grammar::resolve(all, key@, modifiers) == grammar::resolve(
                    all.skip(i as int),
                    key@,
                    modifiers,
                ),
            decreases self.keybinds@.len() - i,
        {
            let ghost rest = all.skip(i as int);
            assert(rest[0] == self.keybinds@[i as int]@);
            assert(rest.drop_first() == all.skip(i + 1));
            if self.keybinds[i].matches(key, modifiers) {
                return Some(self.keybinds[i].command.clone());
            }
            i += 1;
        }
        None
    }

    /// The names and values of the variables, in the order in which they are
    /// written.
    pub closed spec fn variables(&self) -> Seq<(Seq<char>, Seq<char>)> {
        entries(self.vars@)
    }

    /// The names and values of the variables, in the order in which they are
    /// written.
    pub fn vars(&self) -> (list: Vec<(String, String)>)
        ensures
            pairs(list@) == self.variables(),
    {
        let mut list: Vec<(String, String)> = Vec::new();
        let mut i: usize = 0;
        while i < self.vars.len()
            invariant
                i <= self.vars@.len(),
                pairs(list@) == self.variables().take(i as int),
            decreases self.vars@.len() - i,
        {
            let name = string_of(&self.vars[i].0, 0, self.vars[i].0.len());
            let value = string_of(&self.vars[i].1, 0, self.vars[i].1.len());
            assert(name@ == self.vars@[i as int].0@ && value@ == self.vars@[i as int].1@);
            let ghost before = pairs(list@);
            list.push((name, value));
            assert(pairs(list@) =~= before.push((name@, value@)));
            assert(self.variables().take(i + 1) =~= self.variables().take(i as int).push(
                self.variables()[i as int],
            ));
            i += 1;
        }
        assert(self.variables().take(self.vars@.len() as int) == self.variables());
        list
    }

    /// The variable table is the one that the written variables stand for.
    pub proof fn lemma_variables(&self)
        ensures
            self@.vars == table(self.variables()),
    {
    }

    /// Appends the line that sets the variable at `i`.
    fn write_set(&self, s: &mut String, i: usize)
        requires
            i < self.vars@.len(),
        ensures
            final(s)@ == old(s)@ + set_line(self.variables()[i as int]) + seq!['\n'],
    {
        s.append("set");
        s.push(' ');
        append_chars(s, &self.vars[i].0);
        s.push(' ');
        append_chars(s, &self.vars[i].1);
        s.push('\n');
        assert(s@ =~= old(s)@ + set_line(self.variables()[i as int]) + seq!['\n']);
    }

    /// Appends the line that binds the keybind at `i`.
    fn write_bind(&self, s: &mut String, i: usize)
        requires
            i < self.keybinds@.len(),
        ensures
            final(s)@ == old(s)@ + bind_line(self@.keybinds[i as int]) + seq!['\n'],
    {
        let keybind = &self.keybinds[i];
        s.append("bind");
        s.push(' ');
        write_trigger(s, &keybind.key, keybind.modifiers);
        s.push(' ');
        s.append(keybind.command.as_str());
        s.push('\n');
        assert(self@.keybinds[i as int] == keybind@);
        assert(s@ =~= old(s)@ + bind_line(keybind@) + seq!['\n']);
    }

    /// Appends the lines that set the variables.
    fn write_sets(&self, s: &mut String)
        ensures
            final(s)@ == old(s)@ + terminated(set_lines(self.variables()), '\n'),
    {
        let ghost lines = set_lines(self.variables());
        let mut i: usize = 0;
        assert(lines.take(0) == Seq::<Seq<char>>::empty());
        assert(s@ == old(s)@ + Seq::<char>::empty());
        while i < self.vars.len()
            invariant
                i <= self.vars@.len(),
                lines == set_lines(self.variables()),
                s@ == old(s)@ + terminated(lines.take(i as int), '\n'),
            decreases self.vars@.len() - i,
        {
            let ghost next = lines.take(i + 1);
            assert(next.drop_last() == lines.take(i as int));
            assert(next.last() == set_line(self.variables()[i as int]));
            self.write_set(s, i);
            assert(s@ =~= old(s)@ + terminated(next, '\n'));
            i += 1;
        }
        assert(lines.take(lines.len() as int) == lines);
    }

    /// Appends the lines that bind the keybinds.
    fn write_binds(&self, s: &mut String)
        ensures
            final(s)@ == old(s)@ + terminated(bind_lines(self@.keybinds), '\n'),
    {
        let ghost lines = bind_lines(self@.keybinds);
        let mut j: usize = 0;
        assert(lines.take(0) == Seq::<Seq<char>>::empty());
        assert(s@ == old(s)@ + Seq::<char>::empty());
        while j < self.keybinds.len()
            invariant
                j <= self.keybinds@.len(),
                lines == bind_lines(self@.keybinds),
                s@ == old(s)@ + terminated(lines.take(j as int), '\n'),
            decreases self.keybinds@.len() - j,
        {
            let ghost next = lines.take(j + 1);
            assert(next.drop_last() == lines.take(j as int));
            assert(next.last() == bind_line(self@.keybinds[j as int]));
            self.write_bind(s, j);
            assert(s@ =~= old(s)@ + terminated(next, '\n'));
            j += 1;
        }
        assert(lines.take(lines.len() as int) == lines);
    }

    /// Writes the configuration as text: a `set` line for each variable, then
    /// a `bind` line for each keybind with its modifiers by name. Parsing the
    /// text gives this configuration again, unless a keybind is triggered by
    /// the key `+`, which no trigger can write.
    pub fn serialize(&self) -> (text: String)
        ensures
            text@ == serialize(self.variables(), self@.keybinds),
            writable(self@.keybinds) ==> grammar::parse(text@) == Ok::<
                ConfigModel,
                (nat, ParseFault),
            >(self@),
    {
        let mut s = String::new();
        self.write_sets(&mut s);
        self.write_binds(&mut s);
        proof {
            use_type_invariant(self);
            lemma_terminated_concat(
                set_lines(self.variables()),
                bind_lines(self@.keybinds),
                '\n',
            );
            assert(s@ =~= serialize(self.variables(), self@.keybinds));
            if writable(self@.keybinds) {
                law_round_trip(self.variables(), self@.keybinds);
            }
        }
        s
    }
}

} // verus!