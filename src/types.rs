//! The protocol and declaration kinds, code blocks, and the small maps
//! keyed by declaration kind.
use vstd::prelude::*;

verus! {

/// The interface definition languages that can be read.
pub enum IdlProtocolType {
    Thrift,
}

impl IdlProtocolType {
    /// The file suffix of the protocol's source files.
    pub fn as_str(&self) -> (r: &'static str)
        ensures
            r@ == ".thrift"@,
    {
        match self {
            IdlProtocolType::Thrift => ".thrift",
        }
    }
}

/// A kind of declaration block.
#[derive(Debug, PartialEq, Eq, Hash, Clone, Copy, Structural)]
pub enum IdlType {
    Interface,
    Enum,
}

/// The keyword that opens a block of the given kind.
pub open spec fn kind_keyword(k: IdlType) -> Seq<char> {
    match k {
        IdlType::Interface => "struct"@,
        IdlType::Enum => "enum"@,
    }
}

impl IdlType {
    /// The keyword that opens a block of this kind.
    pub fn as_str(&self) -> (r: &'static str)
        ensures
            r@ == kind_keyword(*self),
    {
        match self {
            IdlType::Interface => "struct",
            IdlType::Enum => "enum",
        }
    }
}

/// A named group of source lines: one declaration block.
#[derive(Debug, Clone)]
pub struct CodeBlock {
    pub name: String,
    pub lines: Vec<String>,
}

/// A value for each declaration kind, each possibly absent.
#[derive(Debug, Clone)]
pub struct KindMap<T> {
    pub interface: Option<T>,
    pub enumeration: Option<T>,
}

impl<T> KindMap<T> {
    /// The entry of kind `k`.
    pub open spec fn spec_get(&self, k: IdlType) -> Option<T> {
        match k {
            IdlType::Interface => self.interface,
            IdlType::Enum => self.enumeration,
        }
    }

    /// A map with no entry.
    pub fn new() -> (r: Self)
        ensures
            r.interface is None,
            r.enumeration is None,
    {
        KindMap { interface: None, enumeration: None }
    }

    /// Sets the entry of kind `k` to `v`, leaving the other entry alone.
    pub fn insert(&mut self, k: IdlType, v: T)
        ensures
            final(self).spec_get(k) == Some(v),
            forall|o: IdlType| o != k ==> final(self).spec_get(o) == old(self).spec_get(o),
    {
        match k {
            IdlType::Interface => {
                self.interface = Some(v);
            },
            IdlType::Enum => {
                self.enumeration = Some(v);
            },
        }
    }

    /// The entry of kind `k`, if there is one.
    pub fn get(&self, k: &IdlType) -> (r: Option<&T>)
        ensures
            r is Some <==> self.spec_get(*k) is Some,
            r is Some ==> *r->0 == self.spec_get(*k)->0,
    {
        match k {
            IdlType::Interface => match &self.interface {
                Some(v) => Some(v),
                None => None,
            },
            IdlType::Enum => match &self.enumeration {
                Some(v) => Some(v),
                None => None,
            },
        }
    }
}

/// The code blocks of one file or namespace, by declaration kind.
pub type IdlBlocksMap = KindMap<Vec<CodeBlock>>;

} // verus!
