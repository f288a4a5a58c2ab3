//! The symbol table: records declared types and variables together with
//! the lexical depth each was declared at. A symbol is accepted when its
//! name is not yet registered in its own category, or when every entry
//! already carrying the name lies at a strictly shallower level, so that
//! the new declaration shadows them; anything else is silently dropped.

use vstd::prelude::*;
use crate::token::str_eq;
use crate::type_system::{Type, TypeModel, Variable, VariableModel};

verus! {

/// A symbol: a declared type or a declared variable.
#[derive(Debug, Eq, PartialEq)]
pub enum SymbolType {
    Type(Type),
    Variable(Variable),
}

/// The model of a symbol.
pub enum SymbolModel {
    Type(TypeModel),
    Variable(VariableModel),
}

impl View for SymbolType {
    type V = SymbolModel;

    open spec fn view(&self) -> SymbolModel {
        match self {
            SymbolType::Type(t) => SymbolModel::Type(t@),
            SymbolType::Variable(v) => SymbolModel::Variable(v@),
        }
    }
}

impl SymbolType {
    /// The symbol's name, for the registration checks.
    fn name_str(&self) -> (r: &str)
        ensures
            r@ == symbol_name(self@),
    {
        match self {
            SymbolType::Type(t) => t.name_str(),
            SymbolType::Variable(v) => v.name_str(),
        }
    }
}

/// The name a symbol is registered under.
pub open spec fn symbol_name(s: SymbolModel) -> Seq<char> {
    match s {
        SymbolModel::Type(t) => t.name,
        SymbolModel::Variable(v) => v.name,
    }
}

/// Whether two symbols fall in the same category (both types, or both
/// variables).
pub open spec fn same_category(a: SymbolModel, b: SymbolModel) -> bool {
    (a is Type && b is Type) || (a is Variable && b is Variable)
}

/// Whether the entries already register a symbol of this category under
/// this name.
pub open spec fn name_registered(entries: Seq<(SymbolModel, u16)>, s: SymbolModel) -> bool {
    exists|i: int|
        0 <= i < entries.len() && same_category(entries[i].0, s) && symbol_name(entries[i].0)
            == symbol_name(s)
}

/// Whether every accepted entry carrying this name, whatever its
/// category, lies at a strictly shallower level than `depth`.
pub open spec fn only_shallower(entries: Seq<(SymbolModel, u16)>, name: Seq<char>, depth: u16) -> bool {
    forall|i: int|
        #![trigger entries[i]]
        0 <= i < entries.len() && symbol_name(entries[i].0) == name ==> entries[i].1 < depth
}

/// The acceptance rule: a symbol enters the table when its name is new to
/// its category, or when the name is held only at strictly shallower
/// levels, so that the new, deeper declaration shadows it.
pub open spec fn accepts(entries: Seq<(SymbolModel, u16)>, s: SymbolModel, depth: u16) -> bool {
    !name_registered(entries, s) || only_shallower(entries, symbol_name(s), depth)
}

/// The symbol table: the accepted symbols in insertion order, each with
/// the depth it was declared at.
#[derive(Debug)]
pub struct SymbolTable {
    storage: Vec<SymbolType>,
    depths: Vec<u16>,
}

impl SymbolTable {
    /// One depth recorded for each stored symbol.
    pub closed spec fn wf(&self) -> bool {
        self.storage@.len() == self.depths@.len()
    }

    /// The accepted symbols, in order, with their depths.
    pub closed spec fn entries(&self) -> Seq<(SymbolModel, u16)> {
        Seq::new(self.storage@.len(), |i: int| (self.storage@[i]@, self.depths@[i]))
    }

    pub fn new() -> (t: Self)
        ensures
            t.wf(),
            t.entries() == Seq::<(SymbolModel, u16)>::empty(),
    {
        let t = SymbolTable { storage: Vec::new(), depths: Vec::new() };
        proof {
            assert(t.entries() =~= Seq::<(SymbolModel, u16)>::empty());
        }
        t
    }

    /// Inserts the symbol at the given depth when the acceptance rule
    /// admits it, and drops it silently otherwise.
    pub fn insert_symbol(&mut self, symbol: SymbolType, depth: u16)
        requires
            old(self).wf(),
        ensures
            final(self).wf(),
            final(self).entries() == (if accepts(old(self).entries(), symbol@, depth) {
                old(self).entries().push((symbol@, depth))
            } else {
                old(self).entries()
            }),
    {
        let mut registered = false;
        let mut i: usize = 0;
        while i < self.storage.len()
            invariant
                self.wf(),
                self.storage@ == old(self).storage@,
                self.depths@ == old(self).depths@,
                i <= self.storage@.len(),
                registered == exists|j: int|
                    0 <= j < i && same_category(self.entries()[j].0, symbol@) && symbol_name(
                        self.entries()[j].0,
                    ) == symbol_name(symbol@),
            decreases self.storage@.len() - i,
        {
            let entry = &self.storage[i];
            let same = match (entry, &symbol) {
                (SymbolType::Type(_), SymbolType::Type(_)) => true,
                (SymbolType::Variable(_), SymbolType::Variable(_)) => true,
                _ => false,
            };
            let hit = same && str_eq(entry.name_str(), symbol.name_str());
            proof {
                assert(self.entries()[i as int].0 == self.storage@[i as int]@);
                assert(hit == (same_category(self.entries()[i as int].0, symbol@) && symbol_name(
                    self.entries()[i as int].0,
                ) == symbol_name(symbol@)));
            }
            if hit {
                registered = true;
            }
            i += 1;
        }

        // an entry of the same name at this depth or deeper blocks the insert
        let mut blocked = false;
        let mut k: usize = 0;
        while k < self.storage.len()
            invariant
                self.wf(),
                self.storage@ == old(self).storage@,
                self.depths@ == old(self).depths@,
                k <= self.storage@.len(),
                blocked == exists|j: int|
                    0 <= j < k && self.entries()[j].1 >= depth && symbol_name(self.entries()[j].0)
                        == symbol_name(symbol@),
            decreases self.storage@.len() - k,
        {
            let entry = &self.storage[k];
            let at_or_below = self.depths[k] >= depth;
            let hit = at_or_below && str_eq(entry.name_str(), symbol.name_str());
            proof {
                assert(self.entries()[k as int] == (self.storage@[k as int]@, self.depths@[k as int]));
                assert(hit == (self.entries()[k as int].1 >= depth && symbol_name(
                    self.entries()[k as int].0,
                ) == symbol_name(symbol@)));
            }
            if hit {
                blocked = true;
            }
            k += 1;
        }

        proof {
            assert(registered == name_registered(self.entries(), symbol@));
            assert(!blocked == only_shallower(self.entries(), symbol_name(symbol@), depth));
        }

        if !registered || !blocked {
            let ghost prior = self.entries();
            self.storage.push(symbol);
            self.depths.push(depth);
            proof {
                assert(self.entries() =~= prior.push((symbol@, depth)));
            }
        }
    }
}

impl Default for SymbolTable {
    fn default() -> (t: Self)
        ensures
            t.wf(),
            t.entries() == Seq::<(SymbolModel, u16)>::empty(),
    {
        Self::new()
    }
}

} // verus!
