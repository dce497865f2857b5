//! The schemas that validation checks an expression against.

use vstd::prelude::*;
use vstd::hash_map::StringHashMap;
use super::types::Type;

verus! {

/// What a function takes and returns: the types of its required parameters in
/// order, the type of any further arguments if it is variadic, and the type
/// of its result.
pub type Signature = (Vec<Type>, Option<Type>, Type);

/// A `Signature` with its parameter list as a sequence.
pub type SignatureView = (Seq<Type>, Option<Type>, Type);

/// The type of each known identifier, by name.
pub struct IdentifiersTypeMap {
    map: StringHashMap<Type>,
}

/// The signature of each known function, by name.
pub struct FunctionsTypeMap {
    map: StringHashMap<Signature>,
}

impl View for IdentifiersTypeMap {
    type V = Map<Seq<char>, Type>;

    closed spec fn view(&self) -> Map<Seq<char>, Type> {
        self.map@
    }
}

impl View for FunctionsTypeMap {
    type V = Map<Seq<char>, SignatureView>;

    closed spec fn view(&self) -> Map<Seq<char>, SignatureView> {
        Map::new(
            |name: Seq<char>| self.map@.contains_key(name),
            |name: Seq<char>| (self.map@[name].0@, self.map@[name].1, self.map@[name].2),
        )
    }
}

impl IdentifiersTypeMap {
    /// A schema that knows no identifier.
    pub fn new() -> (r: Self)
        ensures
            r@ == Map::<Seq<char>, Type>::empty(),
    {
        IdentifiersTypeMap { map: StringHashMap::new() }
    }

    /// Gives `name` the type `ty`, in place of any type it had.
    pub fn insert(&mut self, name: String, ty: Type)
        ensures
            final(self)@ == old(self)@.insert(name@, ty),
    {
        self.map.insert(name, ty);
    }

    /// The type of `name`, if the schema knows it.
    pub fn get(&self, name: &str) -> (r: Option<Type>)
        ensures
            r == (if self@.contains_key(name@) {
                Some(self@[name@])
            } else {
                None
            }),
    {
        match self.map.get(name) {
            Some(ty) => Some(*ty),
            None => None,
        }
    }
}

impl FunctionsTypeMap {
    /// A schema that knows no function.
    pub fn new() -> (r: Self)
        ensures
            r@ == Map::<Seq<char>, SignatureView>::empty(),
    {
        let r = FunctionsTypeMap { map: StringHashMap::new() };
        assert(r@ =~= Map::<Seq<char>, SignatureView>::empty());
        r
    }

    /// Gives `name` the signature `signature`, in place of any it had.
    pub fn insert(&mut self, name: String, signature: Signature)
        ensures
            final(self)@ == old(self)@.insert(name@, (signature.0@, signature.1, signature.2)),
    {
        let ghost before = self@;
        let ghost entry = (signature.0@, signature.1, signature.2);
        let ghost key = name@;
        self.map.insert(name, signature);
        assert(self@ =~= before.insert(key, entry));
    }

    /// The signature of `name`, if the schema knows it.
    pub fn get(&self, name: &str) -> (r: Option<&Signature>)
        ensures
            match r {
                Some(s) => self@.contains_key(name@) && self@[name@] == (s.0@, s.1, s.2),
                None => !self@.contains_key(name@),
            },
    {
        self.map.get(name)
    }
}

} // verus!
