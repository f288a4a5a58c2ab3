//! The type checker's data: named types, variables, functions, the keys
//! the checker files them under, and the checker's own symbol table with
//! its built-in numeric types.

use vstd::prelude::*;

verus! {

/// A named type and its size in bits.
#[derive(Debug, PartialEq, Eq)]
pub struct Type {
    pub(crate) name: String,
    pub(crate) size: usize,
}

/// The model of a `Type`.
pub struct TypeModel {
    pub name: Seq<char>,
    pub size: nat,
}

impl View for Type {
    type V = TypeModel;

    closed spec fn view(&self) -> TypeModel {
        TypeModel { name: self.name@, size: self.size as nat }
    }
}

/// A function signature: its name, return type and parameter types.
#[derive(Debug, PartialEq, Eq)]
pub struct Function {
    pub(crate) name: String,
    pub(crate) return_type: Type,
    pub(crate) params: Vec<Type>,
}

/// The model of a `Function`.
pub struct FunctionModel {
    pub name: Seq<char>,
    pub return_type: TypeModel,
    pub params: Seq<TypeModel>,
}

impl View for Function {
    type V = FunctionModel;

    closed spec fn view(&self) -> FunctionModel {
        FunctionModel {
            name: self.name@,
            return_type: self.return_type@,
            params: self.params@.map_values(|t: Type| t@),
        }
    }
}

/// A declared variable: its name, whether it was declared with `const`,
/// whether it is mutable, and its type once known.
#[derive(Debug, PartialEq, Eq)]
pub struct Variable {
    pub(crate) name: String,
    pub(crate) is_const: bool,
    pub(crate) mutable: bool,
    pub(crate) type_: Option<Type>,
}

/// The model of a `Variable`.
pub struct VariableModel {
    pub name: Seq<char>,
    pub is_const: bool,
    pub mutable: bool,
    pub type_: Option<TypeModel>,
}

impl View for Variable {
    type V = VariableModel;

    closed spec fn view(&self) -> VariableModel {
        VariableModel {
            name: self.name@,
            is_const: self.is_const,
            mutable: self.mutable,
            type_: match self.type_ {
                Some(t) => Some(t@),
                None => None,
            },
        }
    }
}

impl Type {
    #[must_use]
    pub fn new(name: &str, size: usize) -> (t: Type)
        ensures
            t@ == (TypeModel { name: name@, size: size as nat }),
    {
        Type { name: name.to_owned(), size }
    }

    /// The declared name, for comparisons outside this module.
    pub(crate) fn name_str(&self) -> (r: &str)
        ensures
            r@ == self@.name,
    {
        self.name.as_str()
    }

    pub(crate) fn clone(&self) -> (t: Type)
        ensures
            t@ == self@,
    {
        Type { name: self.name.clone(), size: self.size }
    }
}

impl Variable {
    pub(crate) fn new(name: &str, is_const: bool, mutable: bool, type_: Option<Type>) -> (v:
        Variable)
        ensures
            v@ == (VariableModel {
                name: name@,
                is_const,
                mutable,
                type_: match type_ {
                    Some(t) => Some(t@),
                    None => None,
                },
            }),
    {
        Variable { name: name.to_owned(), is_const, mutable, type_ }
    }

    /// The declared name, for comparisons outside this module.
    pub(crate) fn name_str(&self) -> (r: &str)
        ensures
            r@ == self@.name,
    {
        self.name.as_str()
    }
}

/// A symbol-table key: a name at a lexical depth.
#[derive(Debug, Clone, Hash, PartialEq, Eq, PartialOrd, Ord)]
pub struct Key {
    pub(crate) name: String,
    pub(crate) depth: u16,
}

/// The model of a `Key`.
pub struct KeyModel {
    pub name: Seq<char>,
    pub depth: u16,
}

impl View for Key {
    type V = KeyModel;

    closed spec fn view(&self) -> KeyModel {
        KeyModel { name: self.name@, depth: self.depth }
    }
}

impl Key {
    #[must_use]
    pub fn new(name: &str, depth: u16) -> (k: Key)
        ensures
            k@ == (KeyModel { name: name@, depth }),
    {
        Key { name: name.to_owned(), depth }
    }
}

/// A symbol the checker files under a key.
#[derive(Debug, PartialEq, Eq)]
enum SymbolType {
    Type(Type),
    Variable(Variable),
    Function(Function),
}

/// The model of a checker symbol.
pub enum CheckerSymbol {
    Type(TypeModel),
    Variable(VariableModel),
    Function(FunctionModel),
}

impl View for SymbolType {
    type V = CheckerSymbol;

    closed spec fn view(&self) -> CheckerSymbol {
        match self {
            SymbolType::Type(t) => CheckerSymbol::Type(t@),
            SymbolType::Variable(v) => CheckerSymbol::Variable(v@),
            SymbolType::Function(f) => CheckerSymbol::Function(f@),
        }
    }
}

/// The ways type checking can fail.
#[derive(Debug)]
pub enum TypeErrors {
    TypeAlreadyExists(),
    FunctionAlreadyExists(),
    VariableAlreadyExists(),
    TypeNotFound(String),
    SymbolIsNotAType(String, String),
}

/// The type checker: a symbol table keyed by name and depth.
pub struct TypeChecker {
    symbol_table: Vec<(Key, SymbolType)>,
}

/// The map a sequence of keyed symbols denotes; a later entry under the
/// same key wins, though the checker never files two entries under one.
spec fn entries_map(s: Seq<(Key, SymbolType)>) -> Map<(Seq<char>, u16), CheckerSymbol>
    decreases s,
{
    if s.len() == 0 {
        Map::empty()
    } else {
        entries_map(s.drop_last()).insert((s.last().0@.name, s.last().0@.depth), s.last().1@)
    }
}

/// The keys of `entries_map` are exactly the keys of the entries.
proof fn lemma_entries_map_dom(s: Seq<(Key, SymbolType)>, name: Seq<char>, depth: u16)
    ensures
        entries_map(s).contains_key((name, depth)) <==> exists|i: int|
            0 <= i < s.len() && s[i].0@.name == name && s[i].0@.depth == depth,
    decreases s,
{
    if s.len() > 0 {
        lemma_entries_map_dom(s.drop_last(), name, depth);
        if entries_map(s).contains_key((name, depth)) {
            if s.last().0@.name == name && s.last().0@.depth == depth {
                assert(s[s.len() - 1].0@.name == name);
            } else {
                let i = choose|i: int|
                    0 <= i < s.drop_last().len() && s.drop_last()[i].0@.name == name
                        && s.drop_last()[i].0@.depth == depth;
                assert(s[i].0@.name == name && s[i].0@.depth == depth);
            }
        }
        if exists|i: int| 0 <= i < s.len() && s[i].0@.name == name && s[i].0@.depth == depth {
            let i = choose|i: int|
                0 <= i < s.len() && s[i].0@.name == name && s[i].0@.depth == depth;
            if i < s.len() - 1 {
                assert(s.drop_last()[i].0@.name == name && s.drop_last()[i].0@.depth == depth);
            }
        }
    }
}

/// Two character sequences differing at one index are different.
proof fn lemma_seq_ne(a: Seq<char>, b: Seq<char>, i: int)
    requires
        0 <= i < a.len(),
        i < b.len(),
        a[i] != b[i],
    ensures
        a != b,
{
    if a == b {
        assert(a[i] == b[i]);
    }
}

/// The ten numeric types the checker knows from the start, each of them
/// filed at depth zero.
pub open spec fn initial_table() -> Map<(Seq<char>, u16), CheckerSymbol> {
    Map::empty().insert(("i8"@, 0), CheckerSymbol::Type(TypeModel { name: "i8"@, size: 8 }))
        .insert(("i16"@, 0), CheckerSymbol::Type(TypeModel { name: "i16"@, size: 16 }))
        .insert(("i32"@, 0), CheckerSymbol::Type(TypeModel { name: "i32"@, size: 32 }))
        .insert(("i64"@, 0), CheckerSymbol::Type(TypeModel { name: "i64"@, size: 64 }))
        .insert(("u8"@, 0), CheckerSymbol::Type(TypeModel { name: "u8"@, size: 8 }))
        .insert(("u16"@, 0), CheckerSymbol::Type(TypeModel { name: "u16"@, size: 16 }))
        .insert(("u32"@, 0), CheckerSymbol::Type(TypeModel { name: "u32"@, size: 32 }))
        .insert(("u64"@, 0), CheckerSymbol::Type(TypeModel { name: "u64"@, size: 64 }))
        .insert(("f32"@, 0), CheckerSymbol::Type(TypeModel { name: "f32"@, size: 32 }))
        .insert(("f64"@, 0), CheckerSymbol::Type(TypeModel { name: "f64"@, size: 64 }))
}

impl TypeChecker {
    /// The table of symbols the checker has accepted so far.
    pub closed spec fn table(&self) -> Map<(Seq<char>, u16), CheckerSymbol> {
        entries_map(self.symbol_table@)
    }

    /// A fresh checker, preloaded with the built-in numeric types.
    pub fn new() -> (t: Self)
        ensures
            t.table() == initial_table(),
    {
        let mut res = TypeChecker { symbol_table: Vec::new() };
        res.initialize();
        res
    }

    /// Whether a symbol is already filed under this name at this depth.
    fn contains(&self, name: &str, depth: u16) -> (r: bool)
        ensures
            r == self.table().contains_key((name@, depth)),
    {
        let mut i: usize = 0;
        let mut found = false;
        while i < self.symbol_table.len()
            invariant
                i <= self.symbol_table@.len(),
                found == exists|j: int|
                    0 <= j < i && self.symbol_table@[j].0@.name == name@
                        && self.symbol_table@[j].0@.depth == depth,
            decreases self.symbol_table@.len() - i,
        {
            let entry = &self.symbol_table[i];
            if entry.0.depth == depth && crate::token::str_eq(entry.0.name.as_str(), name) {
                found = true;
            }
            i += 1;
        }
        proof {
            lemma_entries_map_dom(self.symbol_table@, name@, depth);
        }
        found
    }

    fn insert(&mut self, key: Key, symbol: SymbolType)
        ensures
            final(self).table() == old(self).table().insert((key@.name, key@.depth), symbol@),
    {
        let ghost prior = self.symbol_table@;
        let ghost k = key@;
        let ghost sm = symbol@;
        self.symbol_table.push((key, symbol));
        proof {
            assert(self.symbol_table@.drop_last() =~= prior);
            assert(self.symbol_table@.last().0@ == k && self.symbol_table@.last().1@ == sm);
        }
    }

    /// Loads the built-in numeric types into an empty table.
    #[verifier::rlimit(60)]
    pub(crate) fn initialize(&mut self)
        requires
            old(self).table() == Map::<(Seq<char>, u16), CheckerSymbol>::empty(),
        ensures
            final(self).table() == initial_table(),
    {
        proof {
            reveal_strlit("i8");
            reveal_strlit("i16");
            reveal_strlit("i32");
            reveal_strlit("i64");
            reveal_strlit("u8");
            reveal_strlit("u16");
            reveal_strlit("u32");
            reveal_strlit("u64");
            reveal_strlit("f32");
            reveal_strlit("f64");
            lemma_seq_ne("i8"@, "u8"@, 0);
            lemma_seq_ne("i16"@, "i32"@, 1);
            lemma_seq_ne("i16"@, "i64"@, 1);
            lemma_seq_ne("i16"@, "u16"@, 0);
            lemma_seq_ne("i16"@, "u32"@, 0);
            lemma_seq_ne("i16"@, "u64"@, 0);
            lemma_seq_ne("i16"@, "f32"@, 0);
            lemma_seq_ne("i16"@, "f64"@, 0);
            lemma_seq_ne("i32"@, "i64"@, 1);
            lemma_seq_ne("i32"@, "u16"@, 0);
            lemma_seq_ne("i32"@, "u32"@, 0);
            lemma_seq_ne("i32"@, "u64"@, 0);
            lemma_seq_ne("i32"@, "f32"@, 0);
            lemma_seq_ne("i32"@, "f64"@, 0);
            lemma_seq_ne("i64"@, "u16"@, 0);
            lemma_seq_ne("i64"@, "u32"@, 0);
            lemma_seq_ne("i64"@, "u64"@, 0);
            lemma_seq_ne("i64"@, "f32"@, 0);
            lemma_seq_ne("i64"@, "f64"@, 0);
            lemma_seq_ne("u16"@, "u32"@, 1);
            lemma_seq_ne("u16"@, "u64"@, 1);
            lemma_seq_ne("u16"@, "f32"@, 0);
            lemma_seq_ne("u16"@, "f64"@, 0);
            lemma_seq_ne("u32"@, "u64"@, 1);
            lemma_seq_ne("u32"@, "f32"@, 0);
            lemma_seq_ne("u32"@, "f64"@, 0);
            lemma_seq_ne("u64"@, "f32"@, 0);
            lemma_seq_ne("u64"@, "f64"@, 0);
            lemma_seq_ne("f32"@, "f64"@, 1);
        }
        self.add_type("i8", 8, 0).unwrap();
        proof {
            assert(!self.table().contains_key(("i16"@, 0u16)));
        }
        self.add_type("i16", 16, 0).unwrap();
        proof {
            assert(!self.table().contains_key(("i32"@, 0u16)));
        }
        self.add_type("i32", 32, 0).unwrap();
        proof {
            assert(!self.table().contains_key(("i64"@, 0u16)));
        }
        self.add_type("i64", 64, 0).unwrap();

        proof {
            assert(!self.table().contains_key(("u8"@, 0u16)));
        }
        self.add_type("u8", 8, 0).unwrap();
        proof {
            assert(!self.table().contains_key(("u16"@, 0u16)));
        }
        self.add_type("u16", 16, 0).unwrap();
        proof {
            assert(!self.table().contains_key(("u32"@, 0u16)));
        }
        self.add_type("u32", 32, 0).unwrap();
        proof {
            assert(!self.table().contains_key(("u64"@, 0u16)));
        }
        self.add_type("u64", 64, 0).unwrap();

        proof {
            assert(!self.table().contains_key(("f32"@, 0u16)));
        }
        self.add_type("f32", 32, 0).unwrap();
        proof {
            assert(!self.table().contains_key(("f64"@, 0u16)));
        }
        self.add_type("f64", 64, 0).unwrap();
    }

    /// Files a new named type at the given depth; a name already filed at
    /// that depth is refused.
    pub fn add_type(&mut self, name: &str, size: usize, depth: u16) -> (r: Result<(), TypeErrors>)
        ensures
            old(self).table().contains_key((name@, depth)) ==> (r == Err::<(), TypeErrors>(
                TypeErrors::TypeAlreadyExists(),
            ) && final(self).table() == old(self).table()),
            !old(self).table().contains_key((name@, depth)) ==> (r is Ok && final(self).table()
                == old(self).table().insert(
                (name@, depth),
                CheckerSymbol::Type(TypeModel { name: name@, size: size as nat }),
            )),
    {
        if self.contains(name, depth) {
            return Err(TypeErrors::TypeAlreadyExists());
        }
        self.insert(Key::new(name, depth), SymbolType::Type(Type::new(name, size)));
        Ok(())
    }

    /// Files a new variable, always at depth zero; a name already filed
    /// there is refused.
    pub fn add_variable(
        &mut self,
        name: &str,
        is_const: bool,
        mutable: bool,
        type_: Option<Type>,
    ) -> (r: Result<(), TypeErrors>)
        ensures
            old(self).table().contains_key((name@, 0)) ==> (r == Err::<(), TypeErrors>(
                TypeErrors::VariableAlreadyExists(),
            ) && final(self).table() == old(self).table()),
            !old(self).table().contains_key((name@, 0)) ==> (r is Ok && final(self).table() == old(
                self,
            ).table().insert(
                (name@, 0),
                CheckerSymbol::Variable(
                    VariableModel {
                        name: name@,
                        is_const,
                        mutable,
                        type_: match type_ {
                            Some(t) => Some(t@),
                            None => None,
                        },
                    },
                ),
            )),
    {
        if self.contains(name, 0) {
            return Err(TypeErrors::VariableAlreadyExists());
        }
        self.insert(Key::new(name, 0), SymbolType::Variable(Variable::new(name, is_const, mutable, type_)));
        Ok(())
    }
}

} // verus!
