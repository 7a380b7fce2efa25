//! Reading declaration blocks of a Thrift-like interface definition
//! language and turning them into typed field metadata, grouped by
//! namespace and declaration kind.
use vstd::prelude::*;

pub mod code_block;
pub mod field_type;
pub mod namespace;
pub mod parser;
pub mod searcher;
pub mod text;
pub mod types;

use crate::namespace::{lemma_entries_dom, lemma_entries_value, NamespaceMap};
use crate::parser::{metas_of_map, parser, IdlMetaMap};
use crate::searcher::NamespaceIdlBlocksMap;
use crate::types::IdlProtocolType;

verus! {

/// Declaration metadata by namespace, then by kind.
pub type NamespaceIdlMetaMap = NamespaceMap<IdlMetaMap>;

/// The metadata of every block of a namespace tree: the same namespaces, in
/// the same order, each with the metadata of its blocks.
pub fn parse_idl_metas_from_blocks(
    idl_protocol_type: &IdlProtocolType,
    namespace_idl_blocks_map: &NamespaceIdlBlocksMap,
) -> (r: NamespaceIdlMetaMap)
    requires
        namespace_idl_blocks_map.wf(),
    ensures
        r.wf(),
        r@.dom() == namespace_idl_blocks_map@.dom(),
        forall|ns: Seq<char>|
            #[trigger] r@.contains_key(ns) ==> metas_of_map(r@[ns], namespace_idl_blocks_map@[ns]),
{
    let src = &namespace_idl_blocks_map.entries;
    let mut entries: Vec<(String, IdlMetaMap)> = Vec::new();
    let mut i: usize = 0;
    while i < src.len()
        invariant
            i <= src@.len(),
            entries@.len() == i,
            forall|j: int|
                0 <= j < i ==> (#[trigger] entries@[j]).0@ == src@[j].0@ && metas_of_map(
                    entries@[j].1,
                    src@[j].1,
                ),
        decreases src@.len() - i,
    {
        let metas = match idl_protocol_type {
            IdlProtocolType::Thrift => parser(&src[i].1),
        };
        entries.push((src[i].0.clone(), metas));
        i = i + 1;
    }
    let r = NamespaceMap { entries };
    proof {
        let e = r.entries@;
        assert forall|a: int, b: int| 0 <= a < b < e.len() implies (#[trigger] e[a]).0@ != (
        #[trigger] e[b]).0@ by {
            assert(src@[a].0@ != src@[b].0@);
        }
        assert forall|ns: Seq<char>| r@.contains_key(ns) <==> namespace_idl_blocks_map@.contains_key(
            ns,
        ) by {
            lemma_entries_dom(e, ns);
            lemma_entries_dom(src@, ns);
            if exists|j: int| 0 <= j < e.len() && (#[trigger] e[j]).0@ == ns {
                let j = choose|j: int| 0 <= j < e.len() && (#[trigger] e[j]).0@ == ns;
                assert(src@[j].0@ == ns);
            }
            if exists|j: int| 0 <= j < src@.len() && (#[trigger] src@[j]).0@ == ns {
                let j = choose|j: int| 0 <= j < src@.len() && (#[trigger] src@[j]).0@ == ns;
                assert(e[j].0@ == ns);
            }
        }
        assert(r@.dom() =~= namespace_idl_blocks_map@.dom());
        assert forall|ns: Seq<char>| #[trigger] r@.contains_key(ns) implies metas_of_map(
            r@[ns],
            namespace_idl_blocks_map@[ns],
        ) by {
            lemma_entries_dom(e, ns);
            let j = choose|j: int| 0 <= j < e.len() && (#[trigger] e[j]).0@ == ns;
            lemma_entries_value(e, j);
            lemma_entries_value(src@, j);
        }
    }
    r
}

} // verus!
