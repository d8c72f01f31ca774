//! Writing a configuration back as text, and the proof that parsing the text
//! gives the configuration again.

use crate::display::Modifier;
use crate::error::ParseFault;
use crate::grammar;
use crate::grammar::{ConfigModel, KeybindModel, Token};
use crate::text::{is_graphic, is_space, join, join_with, lower, split, word_end, words};
use vstd::prelude::*;

verus! {

/// A non-empty run of characters without whitespace.
pub open spec fn is_word(w: Seq<char>) -> bool {
    w.len() > 0 && forall|i: int| 0 <= i < w.len() ==> !is_space(#[trigger] w[i])
}

/// Every element is a word.
pub open spec fn all_words(ws: Seq<Seq<char>>) -> bool {
    forall|i: int| 0 <= i < ws.len() ==> is_word(#[trigger] ws[i])
}

/// No character of `s` is `sep`.
pub open spec fn free_of(s: Seq<char>, sep: char) -> bool {
    forall|i: int| 0 <= i < s.len() ==> #[trigger] s[i] != sep
}

/// `word_end` lies within the sequence, at the first whitespace.
pub proof fn lemma_word_end_bounds(s: Seq<char>)
    ensures
        0 <= word_end(s) <= s.len(),
        forall|k: int| 0 <= k < word_end(s) ==> !is_space(#[trigger] s[k]),
        word_end(s) < s.len() ==> is_space(s[word_end(s)]),
    decreases s.len(),
{
    if s.len() > 0 && !is_space(s[0]) {
        let rest = s.drop_first();
        lemma_word_end_bounds(rest);
        assert forall|k: int| 0 <= k < word_end(s) implies !is_space(#[trigger] s[k]) by {
            if k > 0 {
                assert(s[k] == rest[k - 1]);
            }
        }
        if word_end(s) < s.len() {
            assert(s[word_end(s)] == rest[word_end(rest)]);
        }
    }
}

/// Every word that `words` gives is non-empty and free of whitespace.
pub proof fn lemma_words_are_words(s: Seq<char>)
    ensures
        all_words(words(s)),
    decreases s.len(),
{
    if s.len() > 0 {
        if is_space(s[0]) {
            lemma_words_are_words(s.drop_first());
        } else {
            let n = word_end(s);
            lemma_word_end_bounds(s);
            lemma_words_are_words(s.skip(n));
            let head = s.take(n);
            assert(is_word(head)) by {
                assert forall|i: int| 0 <= i < head.len() implies !is_space(#[trigger] head[i]) by {
                    assert(head[i] == s[i]);
                }
            }
            let ws = words(s);
            assert forall|i: int| 0 <= i < ws.len() implies is_word(#[trigger] ws[i]) by {
                if i > 0 {
                    assert(ws[i] == words(s.skip(n))[i - 1]);
                }
            }
        }
    }
}

/// A word followed by nothing, or by something that starts with whitespace,
/// is the first word of the whole.
pub proof fn lemma_words_after_word(w: Seq<char>, rest: Seq<char>)
    requires
        is_word(w),
        rest.len() == 0 || is_space(rest[0]),
    ensures
        words(w + rest) == seq![w] + words(rest),
{
    let s = w + rest;
    assert(s[0] == w[0]);
    assert forall|k: int| 0 <= k < w.len() implies !is_space(#[trigger] s[k]) by {
        assert(s[k] == w[k]);
    }
    if rest.len() > 0 {
        assert(s[w.len() as int] == rest[0]);
    }
    crate::text::lemma_word_end(s, w.len() as int);
    assert(s.take(w.len() as int) == w);
    assert(s.skip(w.len() as int) == rest);
}

/// Leading whitespace adds no word.
pub proof fn lemma_words_after_space(c: char, rest: Seq<char>)
    requires
        is_space(c),
    ensures
        words(seq![c] + rest) == words(rest),
{
    assert((seq![c] + rest).drop_first() == rest);
}

/// With more than one piece, the joined text is the first piece, the
/// separator, and the other pieces joined.
pub proof fn lemma_join_front(ws: Seq<Seq<char>>, sep: char)
    requires
        ws.len() >= 2,
    ensures
        join_with(ws, sep) == ws[0] + seq![sep] + join_with(ws.drop_first(), sep),
    decreases ws.len(),
{
    let front = ws.drop_last();
    let tail = ws.drop_first();
    if ws.len() == 2 {
        assert(front.len() == 1 && tail.len() == 1);
        assert(front[0] == ws[0] && tail[0] == ws[1]);
        assert(join_with(front, sep) == ws[0]);
        assert(join_with(tail, sep) == ws[1]);
    } else {
        lemma_join_front(front, sep);
        assert(front.drop_first() == tail.drop_last());
        assert(front[0] == ws[0]);
        assert(tail.last() == ws.last());
        assert(join_with(tail, sep) == join_with(tail.drop_last(), sep) + seq![sep] + tail.last());
        assert(join_with(ws, sep) =~= ws[0] + seq![sep] + join_with(tail, sep));
    }
}

/// Two pieces joined are the first, the separator and the second.
pub proof fn lemma_join_pair(a: Seq<char>, b: Seq<char>, sep: char)
    ensures
        join_with(seq![a, b], sep) == a + seq![sep] + b,
{
    let one = seq![a, b].drop_last();
    assert(one.len() == 1 && one[0] == a);
    assert(join_with(one, sep) == a);
}

/// The words of words joined by spaces are those words.
pub proof fn lemma_words_of_join(ws: Seq<Seq<char>>)
    requires
        all_words(ws),
    ensures
        words(join(ws)) == ws,
    decreases ws.len(),
{
    if ws.len() == 0 {
    } else if ws.len() == 1 {
        lemma_words_after_word(ws[0], Seq::empty());
        assert(ws[0] + Seq::<char>::empty() == ws[0]);
        assert(seq![ws[0]] + Seq::<Seq<char>>::empty() =~= ws);
    } else {
        let tail = ws.drop_first();
        assert(all_words(tail)) by {
            assert forall|i: int| 0 <= i < tail.len() implies is_word(#[trigger] tail[i]) by {
                assert(tail[i] == ws[i + 1]);
            }
        }
        lemma_join_front(ws, ' ');
        lemma_words_of_join(tail);
        let rest = seq![' '] + join(tail);
        assert(join(ws) == ws[0] + rest);
        assert(rest[0] == ' ');
        lemma_words_after_word(ws[0], rest);
        lemma_words_after_space(' ', join(tail));
        assert(seq![ws[0]] + tail =~= ws);
    }
}

/// Pieces without the separator, joined by it, split into those pieces.
pub proof fn lemma_split_of_join(ps: Seq<Seq<char>>, sep: char)
    requires
        ps.len() >= 1,
        forall|i: int| 0 <= i < ps.len() ==> free_of(#[trigger] ps[i], sep),
    ensures
        split(join_with(ps, sep), sep) == ps,
    decreases ps.len(),
{
    if ps.len() == 1 {
        let s = ps[0];
        crate::text::lemma_field_end(s, sep, s.len() as int);
        assert(seq![s] =~= ps);
    } else {
        let tail = ps.drop_first();
        assert forall|i: int| 0 <= i < tail.len() implies free_of(#[trigger] tail[i], sep) by {
            assert(tail[i] == ps[i + 1]);
        }
        lemma_join_front(ps, sep);
        lemma_split_of_join(tail, sep);
        let s = join_with(ps, sep);
        let n = ps[0].len() as int;
        assert forall|k: int| 0 <= k < n implies s[k] != sep by {
            assert(s[k] == ps[0][k]);
        }
        assert(s[n] == sep);
        crate::text::lemma_field_end(s, sep, n);
        assert(s.take(n) == ps[0]);
        assert(s.skip(n + 1) == join_with(tail, sep));
        assert(seq![ps[0]] + tail =~= ps);
    }
}

/// Joining two non-empty lists of pieces joins their joined texts.
pub proof fn lemma_join_concat(a: Seq<Seq<char>>, b: Seq<Seq<char>>, sep: char)
    requires
        a.len() >= 1,
        b.len() >= 1,
    ensures
        join_with(a + b, sep) == join_with(a, sep) + seq![sep] + join_with(b, sep),
    decreases b.len(),
{
    let all = a + b;
    assert(all.drop_last() == a + b.drop_last());
    assert(all.last() == b.last());
    if b.len() == 1 {
        assert(a + b.drop_last() == a);
        assert(join_with(b, sep) == b.last());
    } else {
        lemma_join_concat(a, b.drop_last(), sep);
        assert(join_with(all, sep) =~= join_with(a, sep) + seq![sep] + join_with(b, sep));
    }
}

/// The name under which a modifier is written.
pub open spec fn modifier_name(m: Modifier) -> Seq<char> {
    match m {
        Modifier::Shift => "shift"@,
        Modifier::Control => "ctrl"@,
        Modifier::Mod1 => "mod1"@,
        Modifier::Mod2 => "mod2"@,
        Modifier::Mod3 => "mod3"@,
        Modifier::Mod4 => "mod4"@,
        Modifier::Mod5 => "mod5"@,
    }
}

/// The modifiers in the order in which they are written.
pub open spec fn modifier_order() -> Seq<Modifier> {
    seq![
        Modifier::Shift,
        Modifier::Control,
        Modifier::Mod1,
        Modifier::Mod2,
        Modifier::Mod3,
        Modifier::Mod4,
        Modifier::Mod5,
    ]
}

/// Those of `order` whose bit is set in `mask`, in that order.
pub open spec fn held(mask: u32, order: Seq<Modifier>) -> Seq<Modifier>
    decreases order.len(),
{
    if order.len() == 0 {
        Seq::empty()
    } else if mask & order.last().bit() != 0 {
        held(mask, order.drop_last()).push(order.last())
    } else {
        held(mask, order.drop_last())
    }
}

/// The names of a list of modifiers.
pub open spec fn modifier_names(mods: Seq<Modifier>) -> Seq<Seq<char>> {
    Seq::new(mods.len(), |i: int| modifier_name(mods[i]))
}

/// The pieces one after another, each followed by `end`.
pub open spec fn terminated(pieces: Seq<Seq<char>>, end: char) -> Seq<char>
    decreases pieces.len(),
{
    if pieces.len() == 0 {
        Seq::empty()
    } else {
        terminated(pieces.drop_last(), end) + pieces.last() + seq![end]
    }
}

/// The pieces of the trigger of a keybind: the names of its modifiers, then
/// its key.
pub open spec fn trigger_pieces(key: Seq<char>, mask: u32) -> Seq<Seq<char>> {
    modifier_names(held(mask, modifier_order())).push(key)
}

/// The trigger of a keybind as it is written: the name of each modifier
/// followed by `+`, then the key.
pub open spec fn trigger_text(key: Seq<char>, mask: u32) -> Seq<char> {
    terminated(modifier_names(held(mask, modifier_order())), '+') + key
}

/// The line that sets a variable: `set`, its name and its value.
pub open spec fn set_line(entry: (Seq<char>, Seq<char>)) -> Seq<char> {
    "set"@ + seq![' '] + entry.0 + seq![' '] + entry.1
}

/// The line that binds a keybind: `bind`, its trigger and its command.
pub open spec fn bind_line(bind: KeybindModel) -> Seq<char> {
    "bind"@ + seq![' '] + trigger_text(bind.key, bind.modifiers) + seq![' '] + bind.command
}

/// The lines that set the variables.
pub open spec fn set_lines(entries: Seq<(Seq<char>, Seq<char>)>) -> Seq<Seq<char>> {
    Seq::new(entries.len(), |i: int| set_line(entries[i]))
}

/// The lines that bind the keybinds.
pub open spec fn bind_lines(binds: Seq<KeybindModel>) -> Seq<Seq<char>> {
    Seq::new(binds.len(), |i: int| bind_line(binds[i]))
}

/// The lines of a configuration: its variables, then its keybinds.
pub open spec fn text_lines(
    entries: Seq<(Seq<char>, Seq<char>)>,
    binds: Seq<KeybindModel>,
) -> Seq<Seq<char>> {
    set_lines(entries) + bind_lines(binds)
}

/// A configuration as text: each line ends with a line feed.
pub open spec fn serialize(entries: Seq<(Seq<char>, Seq<char>)>, binds: Seq<KeybindModel>) -> Seq<
    char,
> {
    terminated(text_lines(entries, binds), '\n')
}

/// A trigger key as the parser stores it: a named key, or one printable
/// character that is no upper-case letter and no `$`.
pub open spec fn key_ok(key: Seq<char>) -> bool {
    ||| key == "Escape"@
    ||| key == "Return"@
    ||| key.len() == 1 && is_graphic(key[0]) && !('A' <= key[0] <= 'Z') && key[0] != '$'
}

/// A mask that holds bits of modifiers only.
pub open spec fn mask_ok(mask: u32) -> bool {
    mask & 0xFD == mask
}

/// A command as the parser stores it: words with single spaces between
/// them, and more than the lone word `exec`.
pub open spec fn command_ok(command: Seq<char>) -> bool {
    let ws = words(command);
    ws.len() >= 1 && join(ws) == command && !(ws.len() == 1 && ws[0] == "exec"@)
}

/// A word that is no reference to a variable.
pub open spec fn is_plain_word(w: Seq<char>) -> bool {
    is_word(w) && w[0] != '$'
}

/// What holds of the variables and keybinds of every parsed configuration.
pub open spec fn well_formed(
    entries: Seq<(Seq<char>, Seq<char>)>,
    binds: Seq<KeybindModel>,
) -> bool {
    &&& forall|i: int|
        0 <= i < entries.len() ==> is_word((#[trigger] entries[i]).0) && is_plain_word(
            entries[i].1,
        )
    &&& forall|i: int|
        0 <= i < binds.len() ==> key_ok((#[trigger] binds[i]).key) && mask_ok(binds[i].modifiers)
            && command_ok(binds[i].command)
    &&& forall|i: int, j: int|
        0 <= i < j < binds.len() ==> !((#[trigger] binds[i]).key == (#[trigger] binds[j]).key
            && binds[i].modifiers == binds[j].modifiers)
}

/// No keybind is triggered by the key `+`, which a trigger cannot write.
pub open spec fn writable(binds: Seq<KeybindModel>) -> bool {
    forall|i: int| 0 <= i < binds.len() ==> (#[trigger] binds[i]).key != seq!['+']
}

/// Reveals the characters of every word of the grammar.
proof fn lemma_vocabulary()
    ensures
        "mod1"@ == seq!['m', 'o', 'd', '1'],
        "mod2"@ == seq!['m', 'o', 'd', '2'],
        "mod3"@ == seq!['m', 'o', 'd', '3'],
        "mod4"@ == seq!['m', 'o', 'd', '4'],
        "mod5"@ == seq!['m', 'o', 'd', '5'],
        "alt"@ == seq!['a', 'l', 't'],
        "shift"@ == seq!['s', 'h', 'i', 'f', 't'],
        "ctrl"@ == seq!['c', 't', 'r', 'l'],
        "control"@ == seq!['c', 'o', 'n', 't', 'r', 'o', 'l'],
        "escape"@ == seq!['e', 's', 'c', 'a', 'p', 'e'],
        "enter"@ == seq!['e', 'n', 't', 'e', 'r'],
        "return"@ == seq!['r', 'e', 't', 'u', 'r', 'n'],
        "Escape"@ == seq!['E', 's', 'c', 'a', 'p', 'e'],
        "Return"@ == seq!['R', 'e', 't', 'u', 'r', 'n'],
        "set"@ == seq!['s', 'e', 't'],
        "bind"@ == seq!['b', 'i', 'n', 'd'],
        "exec"@ == seq!['e', 'x', 'e', 'c'],
{
    reveal_strlit("mod1");
    reveal_strlit("mod2");
    reveal_strlit("mod3");
    reveal_strlit("mod4");
    reveal_strlit("mod5");
    reveal_strlit("alt");
    reveal_strlit("shift");
    reveal_strlit("ctrl");
    reveal_strlit("control");
    reveal_strlit("escape");
    reveal_strlit("enter");
    reveal_strlit("return");
    reveal_strlit("Escape");
    reveal_strlit("Return");
    reveal_strlit("set");
    reveal_strlit("bind");
    reveal_strlit("exec");
    assert("mod1"@ =~= seq!['m', 'o', 'd', '1']);
    assert("mod2"@ =~= seq!['m', 'o', 'd', '2']);
    assert("mod3"@ =~= seq!['m', 'o', 'd', '3']);
    assert("mod4"@ =~= seq!['m', 'o', 'd', '4']);
    assert("mod5"@ =~= seq!['m', 'o', 'd', '5']);
    assert("alt"@ =~= seq!['a', 'l', 't']);
    assert("shift"@ =~= seq!['s', 'h', 'i', 'f', 't']);
    assert("ctrl"@ =~= seq!['c', 't', 'r', 'l']);
    assert("control"@ =~= seq!['c', 'o', 'n', 't', 'r', 'o', 'l']);
    assert("escape"@ =~= seq!['e', 's', 'c', 'a', 'p', 'e']);
    assert("enter"@ =~= seq!['e', 'n', 't', 'e', 'r']);
    assert("return"@ =~= seq!['r', 'e', 't', 'u', 'r', 'n']);
    assert("Escape"@ =~= seq!['E', 's', 'c', 'a', 'p', 'e']);
    assert("Return"@ =~= seq!['R', 'e', 't', 'u', 'r', 'n']);
    assert("set"@ =~= seq!['s', 'e', 't']);
    assert("bind"@ =~= seq!['b', 'i', 'n', 'd']);
    assert("exec"@ =~= seq!['e', 'x', 'e', 'c']);
}

/// The name of a modifier is a plain word without `+` that the grammar reads
/// as that modifier.
proof fn lemma_modifier_name(m: Modifier)
    ensures
        is_plain_word(modifier_name(m)),
        free_of(modifier_name(m), '+'),
        grammar::classify(lower(modifier_name(m))) == Token::Modifier(m),
{
    lemma_vocabulary();
    let name = modifier_name(m);
    assert(lower(name) =~= name);
    // Naming each character lets the solver tell the words of the grammar
    // apart and see that none holds whitespace or `+`.
    assert(name[0] != '1');
    assert(name[1] != '1');
    assert(name[2] != '1');
    assert(name[3] != '+');
    assert(name.len() > 4 ==> name[4] != '+');
}

/// A stored key other than `+` is a plain word without `+` that the grammar
/// reads as that key.
proof fn lemma_key(key: Seq<char>)
    requires
        key_ok(key),
        key != seq!['+'],
    ensures
        is_plain_word(key),
        free_of(key, '+'),
        grammar::classify(lower(key)) == Token::Key(key),
{
    lemma_vocabulary();
    if key == "Escape"@ {
        assert(lower(key) =~= "escape"@);
        assert(key[5] == 'e');
    } else if key == "Return"@ {
        assert(lower(key) =~= "return"@);
        assert(key[5] == 'n');
    } else {
        assert(lower(key) =~= key);
        assert(key[0] != '+') by {
            if key[0] == '+' {
                assert(key =~= seq!['+']);
            }
        }
    }
}

/// Pieces that are each followed by a separator, and then one more piece,
/// are those pieces joined by the separator.
pub proof fn lemma_terminated(pieces: Seq<Seq<char>>, end: char, last: Seq<char>)
    ensures
        terminated(pieces, end) + last == join_with(pieces.push(last), end),
    decreases pieces.len(),
{
    let all = pieces.push(last);
    assert(all.drop_last() == pieces);
    if pieces.len() == 0 {
        assert(Seq::<char>::empty() + last == last);
    } else {
        lemma_terminated(pieces.drop_last(), end, pieces.last());
        assert(pieces.drop_last().push(pieces.last()) == pieces);
        assert(terminated(pieces, end) + last =~= join_with(pieces, end) + seq![end] + last);
    }
}

/// Terminated pieces one after another are the terminated pieces of both.
pub proof fn lemma_terminated_concat(a: Seq<Seq<char>>, b: Seq<Seq<char>>, end: char)
    ensures
        terminated(a + b, end) == terminated(a, end) + terminated(b, end),
    decreases b.len(),
{
    if b.len() == 0 {
        assert(a + b == a);
        assert(terminated(a, end) + Seq::<char>::empty() == terminated(a, end));
    } else {
        lemma_terminated_concat(a, b.drop_last(), end);
        assert((a + b).drop_last() == a + b.drop_last());
        assert((a + b).last() == b.last());
        assert(terminated(a + b, end) =~= terminated(a, end) + terminated(b, end));
    }
}

/// The tokens that a list of modifiers stands for.
pub open spec fn modifier_tokens(mods: Seq<Modifier>) -> Seq<Token> {
    Seq::new(mods.len(), |i: int| Token::Modifier(mods[i]))
}

/// The bits of a list of modifiers.
pub open spec fn bits(mods: Seq<Modifier>) -> u32
    decreases mods.len(),
{
    if mods.len() == 0 {
        0
    } else {
        bits(mods.drop_last()) | mods.last().bit()
    }
}

proof fn lemma_modifier_tokens(mods: Seq<Modifier>)
    ensures
        grammar::key_count(modifier_tokens(mods)) == 0,
        grammar::mask_of(modifier_tokens(mods)) == bits(mods),
    decreases mods.len(),
{
    if mods.len() > 0 {
        lemma_modifier_tokens(mods.drop_last());
        assert(modifier_tokens(mods).drop_last() == modifier_tokens(mods.drop_last()));
        assert(modifier_tokens(mods).last() == Token::Modifier(mods.last()));
    }
}

proof fn lemma_held_bits(mask: u32, order: Seq<Modifier>)
    ensures
        bits(held(mask, order)) == mask & bits(order),
    decreases order.len(),
{
    if order.len() == 0 {
        assert(mask & 0 == 0) by (bit_vector);
    } else {
        lemma_held_bits(mask, order.drop_last());
        let b = order.last().bit();
        let rest = bits(order.drop_last());
        assert(b == 0x01 || b == 0x04 || b == 0x08 || b == 0x10 || b == 0x20 || b == 0x40 || b
            == 0x80);
        if mask & b != 0 {
            let front = held(mask, order.drop_last());
            assert(held(mask, order).drop_last() == front);
            assert(held(mask, order).last() == order.last());
            assert((mask & rest) | b == mask & (rest | b)) by (bit_vector)
                requires
                    mask & b != 0,
                    b == 0x01 || b == 0x04 || b == 0x08 || b == 0x10 || b == 0x20 || b == 0x40
                        || b == 0x80,
            ;
        } else {
            assert(mask & rest == mask & (rest | b)) by (bit_vector)
                requires
                    mask & b == 0,
            ;
        }
    }
}

proof fn lemma_order_bits()
    ensures
        bits(modifier_order()) == 0xFD,
{
    let o7 = modifier_order();
    let o6 = o7.drop_last();
    let o5 = o6.drop_last();
    let o4 = o5.drop_last();
    let o3 = o4.drop_last();
    let o2 = o3.drop_last();
    let o1 = o2.drop_last();
    let o0 = o1.drop_last();
    assert(bits(o0) == 0);
    assert(bits(o1) == 0x01) by {
        assert(0u32 | 0x01 == 0x01) by (bit_vector);
    }
    assert(bits(o2) == 0x05) by {
        assert(0x01u32 | 0x04 == 0x05) by (bit_vector);
    }
    assert(bits(o3) == 0x0D) by {
        assert(0x05u32 | 0x08 == 0x0D) by (bit_vector);
    }
    assert(bits(o4) == 0x1D) by {
        assert(0x0Du32 | 0x10 == 0x1D) by (bit_vector);
    }
    assert(bits(o5) == 0x3D) by {
        assert(0x1Du32 | 0x20 == 0x3D) by (bit_vector);
    }
    assert(bits(o6) == 0x7D) by {
        assert(0x3Du32 | 0x40 == 0x7D) by (bit_vector);
    }
    assert(bits(o7) == 0xFD) by {
        assert(0x7Du32 | 0x80 == 0xFD) by (bit_vector);
    }
}

/// Words joined by a character that is no whitespace make one word.
proof fn lemma_join_is_word(ps: Seq<Seq<char>>, sep: char)
    requires
        ps.len() >= 1,
        all_words(ps),
        !is_space(sep),
    ensures
        is_word(join_with(ps, sep)),
    decreases ps.len(),
{
    if ps.len() > 1 {
        let front = ps.drop_last();
        assert(all_words(front)) by {
            assert forall|i: int| 0 <= i < front.len() implies is_word(#[trigger] front[i]) by {
                assert(front[i] == ps[i]);
            }
        }
        lemma_join_is_word(front, sep);
        let a = join_with(front, sep);
        let s = join_with(ps, sep);
        assert(is_word(ps.last()));
        assert forall|i: int| 0 <= i < s.len() implies !is_space(#[trigger] s[i]) by {
            if i < a.len() {
                assert(s[i] == a[i]);
            } else if i == a.len() {
                assert(s[i] == sep);
            } else {
                assert(s[i] == ps.last()[i - a.len() - 1]);
            }
        }
    } else {
        assert(is_word(ps[0]));
    }
}

/// The trigger of a stored keybind, as it is written, is read as the key and
/// the modifiers of that keybind, whatever the variables are.
pub proof fn lemma_trigger_round_trip(vars: Map<Seq<char>, Seq<char>>, key: Seq<char>, mask: u32)
    requires
        key_ok(key),
        key != seq!['+'],
        mask_ok(mask),
    ensures
        is_word(trigger_text(key, mask)),
        grammar::trigger(vars, trigger_text(key, mask)) == Ok::<(Seq<char>, u32), ParseFault>(
            (key, mask),
        ),
{
    let mods = held(mask, modifier_order());
    let pieces = trigger_pieces(key, mask);
    lemma_terminated(modifier_names(mods), '+', key);
    lemma_key(key);
    assert forall|i: int| 0 <= i < pieces.len() implies free_of(#[trigger] pieces[i], '+')
        && is_plain_word(pieces[i]) by {
        if i < mods.len() {
            lemma_modifier_name(mods[i]);
        }
    }
    lemma_split_of_join(pieces, '+');
    lemma_join_is_word(pieces, '+');
    let ts = grammar::tokens(vars, pieces);
    let expected = modifier_tokens(mods).push(Token::Key(key));
    assert(ts =~= expected) by {
        assert forall|i: int| 0 <= i < pieces.len() implies ts[i] == expected[i] by {
            assert(is_plain_word(pieces[i]));
            assert(grammar::lookup(vars, pieces[i]) == Ok::<Seq<char>, ParseFault>(pieces[i]));
            if i < mods.len() {
                lemma_modifier_name(mods[i]);
            }
        }
    }
    assert(expected.drop_last() == modifier_tokens(mods));
    assert(expected.last() == Token::Key(key));
    lemma_modifier_tokens(mods);
    lemma_held_bits(mask, modifier_order());
    lemma_order_bits();
    assert(forall|i: int|
        0 <= i < pieces.len() ==> grammar::lookup(vars, #[trigger] pieces[i]) is Ok);
    assert(forall|i: int| 0 <= i < ts.len() ==> !(#[trigger] ts[i] is Unknown));
}

/// Pieces without a character, joined by another, are without it.
proof fn lemma_join_free(ps: Seq<Seq<char>>, sep: char, c: char)
    requires
        forall|i: int| 0 <= i < ps.len() ==> free_of(#[trigger] ps[i], c),
        sep != c,
    ensures
        free_of(join_with(ps, sep), c),
    decreases ps.len(),
{
    if ps.len() > 1 {
        let front = ps.drop_last();
        assert forall|i: int| 0 <= i < front.len() implies free_of(#[trigger] front[i], c) by {
            assert(front[i] == ps[i]);
        }
        lemma_join_free(front, sep, c);
        let a = join_with(front, sep);
        let s = join_with(ps, sep);
        assert(free_of(ps.last(), c));
        assert forall|i: int| 0 <= i < s.len() implies #[trigger] s[i] != c by {
            if i < a.len() {
                assert(s[i] == a[i]);
            } else if i == a.len() {
                assert(s[i] == sep);
            } else {
                assert(s[i] == ps.last()[i - a.len() - 1]);
            }
        }
    } else if ps.len() == 1 {
        assert(free_of(ps[0], c));
    }
}

/// Words joined by spaces hold no line feed.
proof fn lemma_line_of_words(ws: Seq<Seq<char>>)
    requires
        all_words(ws),
    ensures
        free_of(join(ws), '\n'),
        words(join(ws)) == ws,
{
    assert forall|i: int| 0 <= i < ws.len() implies free_of(#[trigger] ws[i], '\n') by {
        assert(is_word(ws[i]));
        assert forall|k: int| 0 <= k < ws[i].len() implies #[trigger] ws[i][k] != '\n' by {
            assert(!is_space(ws[i][k]));
        }
    }
    lemma_join_free(ws, ' ', '\n');
    lemma_words_of_join(ws);
}

/// The line that sets a variable is read as setting it.
proof fn lemma_set_line(c: ConfigModel, entry: (Seq<char>, Seq<char>))
    requires
        is_word(entry.0),
        is_plain_word(entry.1),
    ensures
        free_of(set_line(entry), '\n'),
        grammar::line(c, set_line(entry)) == Ok::<ConfigModel, ParseFault>(
            ConfigModel { vars: c.vars.insert(entry.0, entry.1), ..c },
        ),
{
    lemma_vocabulary();
    let ws = seq!["set"@, entry.0, entry.1];
    assert(is_word("set"@));
    assert(all_words(ws));
    assert(ws.drop_last() =~= seq!["set"@, entry.0]);
    lemma_join_pair("set"@, entry.0, ' ');
    assert(set_line(entry) == join(ws));
    lemma_line_of_words(ws);
    assert(ws.skip(1) =~= seq![entry.0, entry.1]);
    assert(grammar::lookup(c.vars, entry.1) == Ok::<Seq<char>, ParseFault>(entry.1));
}

/// The line that binds a keybind is read as binding it, where its trigger
/// and modifiers are not bound yet.
proof fn lemma_bind_line(c: ConfigModel, bind: KeybindModel)
    requires
        key_ok(bind.key),
        bind.key != seq!['+'],
        mask_ok(bind.modifiers),
        command_ok(bind.command),
        !c.binds(bind.key, bind.modifiers),
    ensures
        free_of(bind_line(bind), '\n'),
        grammar::line(c, bind_line(bind)) == Ok::<ConfigModel, ParseFault>(
            ConfigModel { keybinds: c.keybinds.push(bind), ..c },
        ),
{
    lemma_vocabulary();
    let trig = trigger_text(bind.key, bind.modifiers);
    let command_words = words(bind.command);
    let ws = seq!["bind"@, trig] + command_words;
    lemma_trigger_round_trip(c.vars, bind.key, bind.modifiers);
    lemma_words_are_words(bind.command);
    lemma_join_pair("bind"@, trig, ' ');
    lemma_join_concat(seq!["bind"@, trig], command_words, ' ');
    assert(bind_line(bind) == join(ws));
    assert(is_word("bind"@));
    assert(all_words(ws)) by {
        assert forall|i: int| 0 <= i < ws.len() implies is_word(#[trigger] ws[i]) by {
            if i >= 2 {
                assert(ws[i] == command_words[i - 2]);
            }
        }
    }
    lemma_line_of_words(ws);
    let args = ws.skip(1);
    assert(args =~= seq![trig] + command_words);
    assert(args[0] == trig);
    assert(args[1] == command_words[0]);
    assert(args.skip(1) =~= command_words);
    assert(ws[0] == "bind"@);
    let result = KeybindModel {
        key: bind.key,
        modifiers: bind.modifiers,
        command: join(args.skip(1)),
    };
    assert(result == bind);
}

/// Reading a run of lines that is accepted and then another run is reading
/// the second run in the state that the first one leaves.
proof fn lemma_lines_append(
    c: ConfigModel,
    a: Seq<Seq<char>>,
    b: Seq<Seq<char>>,
    done: nat,
)
    requires
        grammar::lines(c, a, done) is Ok,
    ensures
        grammar::lines(c, a + b, done) == grammar::lines(
            grammar::lines(c, a, done)->Ok_0,
            b,
            done + a.len(),
        ),
    decreases a.len(),
{
    if a.len() == 0 {
        assert(a + b == b);
    } else {
        assert((a + b)[0] == a[0]);
        assert((a + b).drop_first() == a.drop_first() + b);
        let next = grammar::line(c, a[0]).unwrap();
        lemma_lines_append(next, a.drop_first(), b, done + 1);
    }
}

proof fn lemma_set_lines(entries: Seq<(Seq<char>, Seq<char>)>)
    requires
        forall|i: int|
            0 <= i < entries.len() ==> is_word((#[trigger] entries[i]).0) && is_plain_word(
                entries[i].1,
            ),
    ensures
        grammar::lines(ConfigModel::empty(), set_lines(entries), 0) == Ok::<
            ConfigModel,
            (nat, ParseFault),
        >(ConfigModel { vars: grammar::table(entries), keybinds: Seq::empty() }),
    decreases entries.len(),
{
    if entries.len() > 0 {
        let front = entries.drop_last();
        let last = entries.last();
        assert forall|i: int| 0 <= i < front.len() implies is_word((#[trigger] front[i]).0)
            && is_plain_word(front[i].1) by {
            assert(front[i] == entries[i]);
        }
        lemma_set_lines(front);
        let before = ConfigModel { vars: grammar::table(front), keybinds: Seq::empty() };
        assert(last == entries[entries.len() - 1]);
        lemma_set_line(before, last);
        assert(set_lines(entries) =~= set_lines(front) + seq![set_line(last)]);
        lemma_lines_append(ConfigModel::empty(), set_lines(front), seq![set_line(last)], 0);
        let one = seq![set_line(last)];
        let after = ConfigModel { vars: before.vars.insert(last.0, last.1), ..before };
        assert(one[0] == set_line(last));
        assert(grammar::lines(after, one.drop_first(), (front.len() + 1) as nat) == Ok::<
            ConfigModel,
            (nat, ParseFault),
        >(after));
        assert(grammar::lines(before, one, front.len() as nat) == Ok::<
            ConfigModel,
            (nat, ParseFault),
        >(after));
    } else {
        assert(ConfigModel::empty() == (ConfigModel {
            vars: grammar::table(entries),
            keybinds: Seq::empty(),
        }));
    }
}

proof fn lemma_bind_lines(c: ConfigModel, binds: Seq<KeybindModel>, done: nat)
    requires
        c.keybinds.len() == 0,
        well_formed(Seq::empty(), binds),
        writable(binds),
    ensures
        grammar::lines(c, bind_lines(binds), done) == Ok::<ConfigModel, (nat, ParseFault)>(
            ConfigModel { keybinds: binds, ..c },
        ),
    decreases binds.len(),
{
    if binds.len() == 0 {
        assert(c.keybinds =~= binds);
    } else {
        let front = binds.drop_last();
        let last = binds.last();
        assert(last == binds[binds.len() - 1]);
        assert forall|i: int| 0 <= i < front.len() implies key_ok((#[trigger] front[i]).key)
            && mask_ok(front[i].modifiers) && command_ok(front[i].command) && front[i].key
            != seq!['+'] by {
            assert(front[i] == binds[i]);
        }
        assert forall|i: int, j: int| 0 <= i < j < front.len() implies !((#[trigger] front[i]).key
            == (#[trigger] front[j]).key && front[i].modifiers == front[j].modifiers) by {
            assert(front[i] == binds[i]);
            assert(front[j] == binds[j]);
        }
        lemma_bind_lines(c, front, done);
        let before = ConfigModel { keybinds: front, ..c };
        assert(!before.binds(last.key, last.modifiers)) by {
            if before.binds(last.key, last.modifiers) {
                let i = choose|i: int|
                    0 <= i < front.len() && (#[trigger] front[i]).key == last.key
                        && front[i].modifiers == last.modifiers;
                assert(front[i] == binds[i]);
            }
        }
        lemma_bind_line(before, last);
        assert(bind_lines(binds) =~= bind_lines(front) + seq![bind_line(last)]);
        lemma_lines_append(c, bind_lines(front), seq![bind_line(last)], done);
        let one = seq![bind_line(last)];
        let after = ConfigModel { keybinds: front.push(last), ..before };
        assert(front.push(last) =~= binds);
        assert(one[0] == bind_line(last));
        assert(grammar::lines(after, one.drop_first(), done + front.len() + 1) == Ok::<
            ConfigModel,
            (nat, ParseFault),
        >(after));
        assert(grammar::lines(before, one, done + front.len()) == Ok::<
            ConfigModel,
            (nat, ParseFault),
        >(after));
    }
}

/// Parsing the text of a configuration gives that configuration: the same
/// variable table and the same keybinds. Only a keybind on the key `+`, which
/// no trigger can write without a variable, is left out.
pub proof fn law_round_trip(entries: Seq<(Seq<char>, Seq<char>)>, binds: Seq<KeybindModel>)
    requires
        well_formed(entries, binds),
        writable(binds),
    ensures
        grammar::parse(serialize(entries, binds)) == Ok::<ConfigModel, (nat, ParseFault)>(
            ConfigModel { vars: grammar::table(entries), keybinds: binds },
        ),
{
    let sets = set_lines(entries);
    let bindings = bind_lines(binds);
    let body = text_lines(entries, binds);
    let all = body.push(Seq::empty());
    assert(body == sets + bindings);
    lemma_set_lines(entries);
    let middle = ConfigModel { vars: grammar::table(entries), keybinds: Seq::empty() };
    lemma_bind_lines(middle, binds, sets.len());
    let end = ConfigModel { vars: grammar::table(entries), keybinds: binds };
    lemma_lines_append(ConfigModel::empty(), sets, bindings, 0);
    assert(grammar::lines(ConfigModel::empty(), body, 0) == Ok::<ConfigModel, (nat, ParseFault)>(
        end,
    ));
    let blank = seq![Seq::<char>::empty()];
    lemma_terminated(body, '\n', Seq::empty());
    assert(serialize(entries, binds) + Seq::<char>::empty() == serialize(entries, binds));
    assert(all =~= body + blank);
    lemma_lines_append(ConfigModel::empty(), body, blank, 0);
    assert(words(blank[0]).len() == 0);
    assert(grammar::line(end, blank[0]) == Ok::<ConfigModel, ParseFault>(end));
    assert(grammar::lines(end, blank.drop_first(), (body.len() + 1) as nat) == Ok::<
        ConfigModel,
        (nat, ParseFault),
    >(end));
    assert(grammar::lines(end, blank, body.len() as nat) == Ok::<ConfigModel, (nat, ParseFault)>(
        end,
    ));
    assert forall|i: int| 0 <= i < all.len() implies free_of(#[trigger] all[i], '\n') by {
        if i < sets.len() {
            lemma_set_line(middle, entries[i]);
        } else if i < body.len() {
            let k = i - sets.len();
            assert(all[i] == bind_line(binds[k]));
            lemma_bind_line(ConfigModel::empty(), binds[k]);
        }
    }
    lemma_split_of_join(all, '\n');
}

} // verus!
