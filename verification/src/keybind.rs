//! One rule of the action table: a trigger key, the modifiers that must be
//! held, and the command to run.

use crate::grammar::KeybindModel;
use vstd::prelude::*;
use vstd::std_specs::cmp::PartialEqSpecImpl;

verus! {

/// A configured key binding. Two keybinds are equal when their trigger key and
/// modifier mask are; the command plays no part.
#[derive(Debug)]
pub struct Keybind {
    pub key: String,
    pub modifiers: u32,
    pub command: String,
}

impl View for Keybind {
    type V = KeybindModel;

    open spec fn view(&self) -> KeybindModel {
        KeybindModel { key: self.key@, modifiers: self.modifiers, command: self.command@ }
    }
}

impl Keybind {
    /// The rule that runs `command` when `key` is pressed with `modifiers`.
    pub fn new(key: &str, modifiers: u32, command: &str) -> (k: Self)
        ensures
            k@ == (KeybindModel { key: key@, modifiers, command: command@ }),
    {
        Self { key: key.to_owned(), modifiers, command: command.to_owned() }
    }

    /// Whether a key press of `key` with `modifiers` held triggers this rule.
    pub fn matches(&self, key: &str, modifiers: u32) -> (b: bool)
        ensures
            b == self@.triggered_by(key@, modifiers),
    {
        self.key == key.to_owned() && modifiers & self.modifiers == self.modifiers
    }
}

impl Clone for Keybind {
    fn clone(&self) -> (k: Self)
        ensures
            k@ == self@,
    {
        Self { key: self.key.clone(), modifiers: self.modifiers, command: self.command.clone() }
    }
}

impl PartialEq for Keybind {
    fn eq(&self, other: &Self) -> (r: bool) {
        self.key == other.key && self.modifiers == other.modifiers
    }
}

impl Eq for Keybind {

}

impl PartialEqSpecImpl for Keybind {
    open spec fn obeys_eq_spec() -> bool {
        true
    }

    open spec fn eq_spec(&self, other: &Self) -> bool {
        self.key@ == other.key@ && self.modifiers == other.modifiers
    }
}

} // verus!
