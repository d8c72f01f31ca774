//! Properties of the configuration grammar and of the state machine that
//! follow from their definitions.

use crate::display::Modifier;
use crate::error::ParseFault;
use crate::grammar;
use crate::grammar::{decode, mask_of, resolve, CommandModel, ConfigModel, KeybindModel, Token};
use crate::machine::{
    handled, is_visibility_pass, mapped_after, moved, ran, subject, visibility, EventModel,
    RequestModel, WmModel,
};
use vstd::prelude::*;

verus! {

/// Whether one of the requests shows or hides `window`.
pub open spec fn mentions(requests: Seq<RequestModel>, window: u64) -> bool {
    exists|i: int| 0 <= i < requests.len() && subject(#[trigger] requests[i]) == Some(window)
}

/// Where every request about `window` shows it, or every one hides it, the
/// window ends up as they say; a window that no request names stays as it was.
proof fn lemma_mapped_after(
    requests: Seq<RequestModel>,
    mapped: Set<u64>,
    window: u64,
    shown: bool,
)
    requires
        forall|i: int|
            0 <= i < requests.len() && subject(#[trigger] requests[i]) == Some(window)
                ==> requests[i] == if shown {
                RequestModel::MapWindow(window)
            } else {
                RequestModel::UnmapWindow(window)
            },
    ensures
        mapped_after(requests, mapped).contains(window) == if mentions(requests, window) {
            shown
        } else {
            mapped.contains(window)
        },
    decreases requests.len(),
{
    if requests.len() > 0 {
        let front = requests.drop_last();
        assert forall|i: int|
            0 <= i < front.len() && subject(#[trigger] front[i]) == Some(
                window,
            ) implies front[i] == if shown {
            RequestModel::MapWindow(window)
        } else {
            RequestModel::UnmapWindow(window)
        } by {
            assert(front[i] == requests[i]);
        }
        lemma_mapped_after(front, mapped, window, shown);
        let last = requests.len() - 1;
        if subject(requests[last]) == Some(window) {
            assert(mentions(requests, window));
        } else if mentions(front, window) {
            let i = choose|i: int|
                0 <= i < front.len() && subject(#[trigger] front[i]) == Some(window);
            assert(front[i] == requests[i]);
            assert(mentions(requests, window));
        } else if mentions(requests, window) {
            let i = choose|i: int|
                0 <= i < requests.len() && subject(#[trigger] requests[i]) == Some(window);
            assert(front[i] == requests[i]);
        }
    }
}

/// After a visibility pass for workspace `active` has been carried out, a
/// managed window is mapped if and only if it belongs to `active`, whatever
/// was mapped before.
pub proof fn law_visibility_follows_workspace(
    requests: Seq<RequestModel>,
    windows: Map<u64, usize>,
    active: usize,
    mapped: Set<u64>,
)
    requires
        is_visibility_pass(requests, windows, active),
    ensures
        forall|w: u64| #[trigger]
            windows.contains_key(w) ==> (mapped_after(requests, mapped).contains(w) <==> windows[w]
                == active),
{
    assert forall|w: u64| #[trigger] windows.contains_key(w) implies (mapped_after(
        requests,
        mapped,
    ).contains(w) <==> windows[w] == active) by {
        let shown = windows[w] == active;
        let own = visibility(w, windows[w], active);
        assert(requests.contains(own));
        let at = choose|i: int| 0 <= i < requests.len() && requests[i] == own;
        assert(subject(requests[at]) == Some(w));
        assert(mentions(requests, w));
        lemma_mapped_after(requests, mapped, w, shown);
    }
}

/// Once the requests of a switch to workspace `target` have been carried
/// out, every managed window is mapped if and only if it belongs to the
/// active workspace, whatever was mapped before.
pub proof fn law_switch_workspace(
    pre: WmModel,
    target: usize,
    post: WmModel,
    requests: Seq<RequestModel>,
    mapped: Set<u64>,
)
    requires
        post == (WmModel { active: target, ..pre }),
        is_visibility_pass(requests, pre.windows, target),
    ensures
        forall|w: u64| #[trigger]
            post.windows.contains_key(w) ==> (mapped_after(requests, mapped).contains(w)
                <==> post.windows[w] == post.active),
{
    law_visibility_follows_workspace(requests, pre.windows, target, mapped);
}

/// The destruction of a window that was never registered changes nothing and
/// calls for nothing.
pub proof fn law_destroy_unknown_window(
    pre: WmModel,
    window: u64,
    post: WmModel,
    requests: Seq<RequestModel>,
)
    requires
        !pre.windows.contains_key(window),
        handled(pre, EventModel::DestroyNotify { window }, post, requests),
    ensures
        post == pre,
        requests.len() == 0,
{
    assert(pre.windows.remove(window) =~= pre.windows);
}

/// Moving the focused window when the root has the focus changes nothing and
/// calls for nothing.
pub proof fn law_move_root_window(
    pre: WmModel,
    target: usize,
    post: WmModel,
    requests: Seq<RequestModel>,
)
    requires
        moved(pre, pre.root, target, post, requests),
    ensures
        post == pre,
        requests.len() == 0,
{
}

/// A request to configure a window is answered with the geometry that it
/// asks for, whether or not the window is managed, and changes nothing.
pub proof fn law_configure_request_is_answered(
    pre: WmModel,
    window: u64,
    geometry: crate::machine::Geometry,
    value_mask: u64,
    post: WmModel,
    requests: Seq<RequestModel>,
)
    requires
        handled(pre, EventModel::ConfigureRequest { window, geometry, value_mask }, post, requests),
    ensures
        post == pre,
        requests == seq![RequestModel::Configure { window, geometry, value_mask }],
{
}

/// The word that refers to the variable `name`.
pub open spec fn reference(name: Seq<char>) -> Seq<char> {
    seq!['$'] + name
}

/// A word that is no reference to a variable.
pub open spec fn is_literal(word: Seq<char>) -> bool {
    word.len() == 0 || word[0] != '$'
}

/// The configuration after a run of `set` directives, each a name and a
/// value; a directive that is refused changes nothing.
pub open spec fn after_sets(c: ConfigModel, sets: Seq<(Seq<char>, Seq<char>)>) -> ConfigModel
    decreases sets.len(),
{
    if sets.len() == 0 {
        c
    } else {
        let before = after_sets(c, sets.drop_last());
        match grammar::set(before, seq![sets.last().0, sets.last().1]) {
            Ok(next) => next,
            Err(_) => before,
        }
    }
}

/// After any run of `set` directives with literal values, a reference to a
/// variable gives the value that was assigned to it last.
pub proof fn law_reference_gives_latest_value(
    c: ConfigModel,
    sets: Seq<(Seq<char>, Seq<char>)>,
    i: int,
)
    requires
        forall|k: int| 0 <= k < sets.len() ==> is_literal((#[trigger] sets[k]).1),
        0 <= i < sets.len(),
        forall|k: int| i < k < sets.len() ==> (#[trigger] sets[k]).0 != sets[i].0,
    ensures
        grammar::lookup(after_sets(c, sets).vars, reference(sets[i].0)) == Ok::<
            Seq<char>,
            ParseFault,
        >(sets[i].1),
    decreases sets.len(),
{
    let name = sets[i].0;
    assert(reference(name).skip(1) == name);
    let front = sets.drop_last();
    let before = after_sets(c, front);
    let last = sets.last();
    assert(is_literal(last.1));
    assert(grammar::lookup(before.vars, last.1) == Ok::<Seq<char>, ParseFault>(last.1));
    assert(after_sets(c, sets).vars == before.vars.insert(last.0, last.1));
    if i < sets.len() - 1 {
        assert(last.0 != name);
        assert forall|k: int| 0 <= k < front.len() implies is_literal((#[trigger] front[k]).1) by {
            assert(front[k] == sets[k]);
        }
        assert forall|k: int| i < k < front.len() implies (#[trigger] front[k]).0 != front[i].0 by {
            assert(front[k] == sets[k]);
        }
        law_reference_gives_latest_value(c, front, i);
    }
}

/// A reference to a variable that no directive has set resolves to nothing.
pub proof fn law_unset_reference_resolves_to_nothing(
    c: ConfigModel,
    sets: Seq<(Seq<char>, Seq<char>)>,
    name: Seq<char>,
)
    requires
        !c.vars.contains_key(name),
        forall|k: int| 0 <= k < sets.len() ==> (#[trigger] sets[k]).0 != name,
    ensures
        grammar::lookup(after_sets(c, sets).vars, reference(name)) == Err::<Seq<char>, ParseFault>(
            ParseFault::InvalidVariable,
        ),
    decreases sets.len(),
{
    assert(reference(name).skip(1) == name);
    lemma_after_sets_domain(c, sets, name);
}

proof fn lemma_after_sets_domain(c: ConfigModel, sets: Seq<(Seq<char>, Seq<char>)>, name: Seq<char>)
    requires
        !c.vars.contains_key(name),
        forall|k: int| 0 <= k < sets.len() ==> (#[trigger] sets[k]).0 != name,
    ensures
        !after_sets(c, sets).vars.contains_key(name),
    decreases sets.len(),
{
    if sets.len() > 0 {
        let front = sets.drop_last();
        assert forall|k: int| 0 <= k < front.len() implies (#[trigger] front[k]).0 != name by {
            assert(front[k] == sets[k]);
        }
        lemma_after_sets_domain(c, front, name);
        assert(sets.last() == sets[sets.len() - 1]);
    }
}

/// A `set` whose value refers to an unset variable is refused, and so is a
/// `bind` whose trigger holds such a reference.
pub proof fn law_unset_reference_fails(
    c: ConfigModel,
    name: Seq<char>,
    target: Seq<char>,
    text: Seq<char>,
    rest: Seq<Seq<char>>,
    at: int,
)
    requires
        !c.vars.contains_key(name),
        0 <= at < crate::text::split(text, '+').len(),
        crate::text::split(text, '+')[at] == reference(name),
        rest.len() >= 1,
    ensures
        grammar::set(c, seq![target, reference(name)]) == Err::<ConfigModel, ParseFault>(
            ParseFault::InvalidVariable,
        ),
        grammar::bind(c, seq![text] + rest) == Err::<ConfigModel, ParseFault>(
            ParseFault::InvalidVariable,
        ),
{
    assert(reference(name).skip(1) == name);
    assert(grammar::lookup(c.vars, reference(name)) is Err);
    let pieces = crate::text::split(text, '+');
    assert(grammar::lookup(c.vars, pieces[at]) is Err);
    assert((seq![text] + rest)[0] == text);
}

/// Whether the words after `bind` are a trigger and the lone word `exec`.
pub open spec fn is_bare_exec(args: Seq<Seq<char>>) -> bool {
    args.len() == 2 && args[1] == "exec"@
}

/// Of two `bind` directives with the same trigger key, the second is refused
/// as a duplicate if it asks for the same modifiers, whatever its command;
/// if it asks for other modifiers that are not bound yet, both are accepted.
pub proof fn law_duplicate_keybind(c: ConfigModel, first: Seq<Seq<char>>, second: Seq<Seq<char>>)
    requires
        grammar::bind(c, first) is Ok,
        second.len() >= 2,
        !is_bare_exec(second),
        grammar::trigger(c.vars, second[0]) is Ok,
        grammar::trigger(c.vars, first[0]).unwrap().0 == grammar::trigger(
            c.vars,
            second[0],
        ).unwrap().0,
    ensures
        ({
            let one = grammar::trigger(c.vars, first[0]).unwrap();
            let two = grammar::trigger(c.vars, second[0]).unwrap();
            let then = grammar::bind(grammar::bind(c, first).unwrap(), second);
            &&& one.1 == two.1 ==> then == Err::<ConfigModel, ParseFault>(
                ParseFault::DuplicateKeybind,
            )
            &&& one.1 != two.1 && !c.binds(two.0, two.1) ==> then is Ok
        }),
{
    let one = grammar::trigger(c.vars, first[0]).unwrap();
    let two = grammar::trigger(c.vars, second[0]).unwrap();
    let middle = grammar::bind(c, first).unwrap();
    let added = KeybindModel {
        key: one.0,
        modifiers: one.1,
        command: crate::text::join(first.skip(1)),
    };
    assert(middle.keybinds == c.keybinds.push(added));
    assert(middle.vars == c.vars);
    if one.1 == two.1 {
        assert(middle.keybinds[c.keybinds.len() as int] == added);
        assert(middle.binds(two.0, two.1));
    } else if !c.binds(two.0, two.1) {
        if middle.binds(two.0, two.1) {
            let i = choose|i: int|
                0 <= i < middle.keybinds.len() && (#[trigger] middle.keybinds[i]).key == two.0
                    && middle.keybinds[i].modifiers == two.1;
            if i < c.keybinds.len() {
                assert(c.keybinds[i] == middle.keybinds[i]);
            }
        }
    }
}

/// The modifiers among the tokens of a trigger.
pub open spec fn modifier_set(ts: Seq<Token>) -> Set<Modifier>
    decreases ts.len(),
{
    if ts.len() == 0 {
        Set::empty()
    } else {
        match ts.last() {
            Token::Modifier(m) => modifier_set(ts.drop_last()).insert(m),
            _ => modifier_set(ts.drop_last()),
        }
    }
}

/// The mask of a trigger holds the bit of a modifier exactly if the modifier
/// is among its tokens, and no other bit.
pub proof fn lemma_mask_holds_modifiers(ts: Seq<Token>, m: Modifier)
    ensures
        mask_of(ts) & m.bit() != 0 <==> modifier_set(ts).contains(m),
        mask_of(ts) & 0xFD == mask_of(ts),
    decreases ts.len(),
{
    let b = m.bit();
    assert(b == 0x01 || b == 0x04 || b == 0x08 || b == 0x10 || b == 0x20 || b == 0x40 || b == 0x80);
    if ts.len() == 0 {
        assert(0u32 & b == 0) by (bit_vector);
        assert(0u32 & 0xFD == 0) by (bit_vector);
    } else {
        lemma_mask_holds_modifiers(ts.drop_last(), m);
        let p = mask_of(ts.drop_last());
        match ts.last() {
            Token::Modifier(x) => {
                let xb = x.bit();
                assert(xb == 0x01 || xb == 0x04 || xb == 0x08 || xb == 0x10 || xb == 0x20 || xb
                    == 0x40 || xb == 0x80);
                assert(xb == b <==> x == m);
                assert(((p | xb) & b != 0) <==> (p & b != 0 || xb == b)) by (bit_vector)
                    requires
                        b == 0x01 || b == 0x04 || b == 0x08 || b == 0x10 || b == 0x20 || b == 0x40
                            || b == 0x80,
                        xb == 0x01 || xb == 0x04 || xb == 0x08 || xb == 0x10 || xb == 0x20 || xb
                            == 0x40 || xb == 0x80,
                ;
                assert((p | xb) & 0xFD == p | xb) by (bit_vector)
                    requires
                        p & 0xFD == p,
                        xb == 0x01 || xb == 0x04 || xb == 0x08 || xb == 0x10 || xb == 0x20 || xb
                            == 0x40 || xb == 0x80,
                ;
            },
            _ => {},
        }
    }
}

/// Two triggers have the same modifier mask if and only if they name the
/// same set of modifiers, in whatever order and however often.
pub proof fn law_mask_is_modifier_set(a: Seq<Token>, b: Seq<Token>)
    ensures
        mask_of(a) == mask_of(b) <==> modifier_set(a) == modifier_set(b),
{
    let x = mask_of(a);
    let y = mask_of(b);
    lemma_mask_holds_modifiers(a, Modifier::Shift);
    lemma_mask_holds_modifiers(a, Modifier::Control);
    lemma_mask_holds_modifiers(a, Modifier::Mod1);
    lemma_mask_holds_modifiers(a, Modifier::Mod2);
    lemma_mask_holds_modifiers(a, Modifier::Mod3);
    lemma_mask_holds_modifiers(a, Modifier::Mod4);
    lemma_mask_holds_modifiers(a, Modifier::Mod5);
    lemma_mask_holds_modifiers(b, Modifier::Shift);
    lemma_mask_holds_modifiers(b, Modifier::Control);
    lemma_mask_holds_modifiers(b, Modifier::Mod1);
    lemma_mask_holds_modifiers(b, Modifier::Mod2);
    lemma_mask_holds_modifiers(b, Modifier::Mod3);
    lemma_mask_holds_modifiers(b, Modifier::Mod4);
    lemma_mask_holds_modifiers(b, Modifier::Mod5);
    if modifier_set(a) == modifier_set(b) {
        assert(x == y) by (bit_vector)
            requires
                x & 0xFD == x,
                y & 0xFD == y,
                x & 0x01 != 0 <==> y & 0x01 != 0,
                x & 0x04 != 0 <==> y & 0x04 != 0,
                x & 0x08 != 0 <==> y & 0x08 != 0,
                x & 0x10 != 0 <==> y & 0x10 != 0,
                x & 0x20 != 0 <==> y & 0x20 != 0,
                x & 0x40 != 0 <==> y & 0x40 != 0,
                x & 0x80 != 0 <==> y & 0x80 != 0,
        ;
    }
    if x == y {
        assert forall|m: Modifier| modifier_set(a).contains(m) == modifier_set(b).contains(m) by {
            lemma_mask_holds_modifiers(a, m);
            lemma_mask_holds_modifiers(b, m);
        }
        assert(modifier_set(a) =~= modifier_set(b));
    }
}

/// Two accepted triggers denote the same modifier mask if and only if
/// their pieces name the same set of modifiers.
pub proof fn law_trigger_modifiers(
    vars: Map<Seq<char>, Seq<char>>,
    one: Seq<char>,
    two: Seq<char>,
)
    requires
        grammar::trigger(vars, one) is Ok,
        grammar::trigger(vars, two) is Ok,
    ensures
        grammar::trigger(vars, one).unwrap().1 == grammar::trigger(vars, two).unwrap().1
            <==> modifier_set(grammar::tokens(vars, crate::text::split(one, '+')))
            == modifier_set(grammar::tokens(vars, crate::text::split(two, '+'))),
{
    law_mask_is_modifier_set(
        grammar::tokens(vars, crate::text::split(one, '+')),
        grammar::tokens(vars, crate::text::split(two, '+')),
    );
}

/// Every workspace of the state is a positive number.
pub open spec fn positive(m: WmModel) -> bool {
    m.active >= 1 && forall|w: u64| m.windows.contains_key(w) ==> #[trigger] m.windows[w] >= 1
}

/// Handling an event keeps every workspace a positive number, and a request
/// to move the focused window names a positive workspace.
pub proof fn law_workspaces_stay_positive(
    pre: WmModel,
    event: EventModel,
    post: WmModel,
    requests: Seq<RequestModel>,
)
    requires
        positive(pre),
        handled(pre, event, post, requests),
    ensures
        positive(post),
        forall|i: int|
            0 <= i < requests.len() ==> (#[trigger] requests[i] matches RequestModel::MoveFocused(
                id,
            ) ==> id >= 1),
{
}

/// Moving the focused window to a positive workspace keeps every workspace
/// a positive number.
pub proof fn law_move_keeps_workspaces_positive(
    pre: WmModel,
    focused: u64,
    target: usize,
    post: WmModel,
    requests: Seq<RequestModel>,
)
    requires
        positive(pre),
        target >= 1,
        moved(pre, focused, target, post, requests),
    ensures
        positive(post),
{
}

/// A window manager that has stopped handles no further event: its state
/// stays as it is and nothing is asked of the display.
pub proof fn law_stopped_manager_ignores_events(
    pre: WmModel,
    events: Seq<EventModel>,
    post: WmModel,
    requests: Seq<RequestModel>,
)
    requires
        !pre.running,
        ran(pre, events, post, requests),
    ensures
        post == pre,
        requests.len() == 0,
    decreases events.len(),
{
    if events.len() > 0 {
        let (mid, k) = choose|mid: WmModel, k: int|
            #![trigger requests.take(k), mid.running]
            0 <= k <= requests.len() && ran(pre, events.drop_last(), mid, requests.take(k))
                && if mid.running {
                handled(mid, events.last(), post, requests.skip(k))
            } else {
                post == mid && k == requests.len()
            };
        law_stopped_manager_ignores_events(pre, events.drop_last(), mid, requests.take(k));
    }
}

/// Only the `exit` command changes whether the window manager is running,
/// and it stops it: no event starts a stopped window manager, and no other
/// event stops a running one.
pub proof fn law_only_exit_stops(
    pre: WmModel,
    event: EventModel,
    post: WmModel,
    requests: Seq<RequestModel>,
)
    requires
        handled(pre, event, post, requests),
        post.running != pre.running,
    ensures
        pre.running && !post.running,
        event matches EventModel::KeyPress { key, modifiers } && resolve(
            pre.config.keybinds,
            key,
            modifiers,
        ) matches Some(command) && decode(pre.config.vars, command) == CommandModel::Exit,
{
}

/// A keybind that a key press triggers is also triggered when more
/// modifiers are held.
pub proof fn law_extra_modifiers_still_trigger(
    bind: KeybindModel,
    key: Seq<char>,
    held: u32,
    more: u32,
)
    requires
        bind.triggered_by(key, held),
        more & held == held,
    ensures
        bind.triggered_by(key, more),
{
    let asked = bind.modifiers;
    assert(more & asked == asked) by (bit_vector)
        requires
            held & asked == asked,
            more & held == held,
    ;
}

/// A keybind that asks for a modifier is not triggered by a key press
/// without it.
pub proof fn law_missing_modifier_does_not_trigger(
    bind: KeybindModel,
    key: Seq<char>,
    held: u32,
    bit: u32,
)
    requires
        bind.modifiers & bit != 0,
        held & bit == 0,
    ensures
        !bind.triggered_by(key, held),
{
    let asked = bind.modifiers;
    assert(held & asked != asked) by (bit_vector)
        requires
            asked & bit != 0,
            held & bit == 0,
    ;
}

} // verus!
