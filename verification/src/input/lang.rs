//! The language-argument stage (`:lmap`): single-character mappings, switched on and off with
//! `CTRL-^`, that rewrite a bare printable key in the contexts that take text (the command line,
//! Insert mode, the character argument of `f`/`t`/`F`/`T`/`r`) before the key is dispatched. At
//! most one substitution is made: the mapped key is dispatched as it is, so a cyclic map cannot
//! loop.
use std::collections::HashMap;
use vstd::prelude::*;
use crate::keys::{KeyCode, KeyEvent, KeyModifiers};

verus! {

/// The mappings, keyed by the code of the mapped character, and whether they are on.
pub struct LangArg {
    active: bool,
    map: HashMap<u32, char>,
}

/// What the stage does to `key`: when it is on and has mappings, a bare (or Shift-only) printable
/// key in a context that takes text becomes the key of its mapped character; any other key is
/// left as it is.
pub open spec fn translated(active: bool, map: Map<u32, char>, key: KeyEvent, eligible: bool) -> KeyEvent {
    match key.code {
        KeyCode::Char(c) => if active && !map.is_empty() && (key.modifiers.bits == 0 || key.modifiers.bits == 1) && eligible
            && map.contains_key(c as u32) {
            KeyEvent { code: KeyCode::Char(map[c as u32]), modifiers: key.modifiers }
        } else {
            key
        },
        _ => key,
    }
}

impl LangArg {
    /// Whether the mappings are on.
    pub closed spec fn is_active(&self) -> bool {
        self.active
    }

    /// The mappings, from the code of a character to the character it becomes.
    pub closed spec fn mappings(&self) -> Map<u32, char> {
        self.map@
    }

    /// No mappings, switched off.
    pub fn new() -> (r: LangArg)
        ensures
            !r.is_active(),
            r.mappings() == Map::<u32, char>::empty(),
    {
        LangArg { active: false, map: HashMap::new() }
    }

    /// `CTRL-^`: switches the mappings on or off.
    pub fn toggle(&mut self)
        ensures
            final(self).is_active() == !old(self).is_active(),
            final(self).mappings() == old(self).mappings(),
    {
        self.active = !self.active;
    }

    /// `:lmap {lhs} {rhs}`: maps `lhs` to `rhs`, replacing any mapping of `lhs`.
    pub fn set_mapping(&mut self, lhs: char, rhs: char)
        ensures
            final(self).is_active() == old(self).is_active(),
            final(self).mappings() == old(self).mappings().insert(lhs as u32, rhs),
    {
        self.map.insert(lhs as u32, rhs);
    }

    /// `:lunmap {lhs}`: removes the mapping of `lhs`, if any.
    pub fn clear_mapping(&mut self, lhs: char)
        ensures
            final(self).is_active() == old(self).is_active(),
            final(self).mappings() == old(self).mappings().remove(lhs as u32),
    {
        self.map.remove(&(lhs as u32));
    }

    /// Rewrites `key` through the mappings (see `translated`); `eligible` says whether the key
    /// arrives in a context that takes text.
    pub fn translate(&self, key: KeyEvent, eligible: bool) -> (r: KeyEvent)
        ensures
            r == translated(self.is_active(), self.mappings(), key, eligible),
    {
        if !self.active || self.map.is_empty() {
            return key;
        }
        let c = match key.code {
            KeyCode::Char(c) => c,
            _ => {
                return key;
            },
        };
        let plain = key.modifiers.bits == KeyModifiers::none().bits || key.modifiers.bits == KeyModifiers::shift().bits;
        if !plain || !eligible {
            return key;
        }
        match self.map.get(&(c as u32)) {
            Some(mapped) => KeyEvent { code: KeyCode::Char(*mapped), modifiers: key.modifiers },
            None => key,
        }
    }
}

} // verus!
