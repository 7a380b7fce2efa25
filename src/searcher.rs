//! The block locator and the aggregator: a file's namespace and blocks,
//! and the merge of many files' blocks into one namespace tree.
use vstd::prelude::*;

use crate::code_block::{block_views, found_blocks, search_blocks_from_source, Pattern};
use crate::namespace::{lemma_entries_update, NamespaceMap};
use crate::parser::{run_end, run_len, CharClass};
use crate::text::{chars_of, copy_range, matches_at, string_of};
use crate::types::{kind_keyword, CodeBlock, IdlBlocksMap, IdlType, KindMap};

verus! {

/// Code blocks by namespace, then by kind.
pub type NamespaceIdlBlocksMap = NamespaceMap<IdlBlocksMap>;

/// A namespace declaration `namespace go a.b.c` starting at `q` and closed
/// by a line feed: the bounds of the dotted name.
pub open spec fn namespace_at(s: Seq<char>, q: int) -> Option<(int, int)> {
    if 0 <= q && q + 13 <= s.len() && s.subrange(q, q + 13) == "namespace go "@ {
        let e = q + 13 + run_len(s, q + 13, CharClass::WordOrDot);
        if e > q + 13 && e < s.len() && s[e] == '\n' {
            Some((q + 13, e))
        } else {
            None
        }
    } else {
        None
    }
}

/// The first namespace declaration at the start of a line, from `q` on.
pub open spec fn first_namespace(s: Seq<char>, q: int) -> Option<(int, int)>
    decreases s.len() + 1 - q,
{
    if q < 0 || q > s.len() {
        None
    } else if (q == 0 || s[q - 1] == '\n') && namespace_at(s, q) is Some {
        namespace_at(s, q)
    } else {
        first_namespace(s, q + 1)
    }
}

/// The namespace that a source text declares; empty if it declares none.
pub open spec fn namespace_of(s: Seq<char>) -> Seq<char> {
    match first_namespace(s, 0) {
        Some(b) => s.subrange(b.0, b.1),
        None => Seq::empty(),
    }
}

fn namespace_at_exec(v: &Vec<char>, q: usize) -> (r: Option<(usize, usize)>)
    requires
        q <= v@.len(),
    ensures
        r is Some <==> namespace_at(v@, q as int) is Some,
        r matches Some(b) ==> namespace_at(v@, q as int) == Some((b.0 as int, b.1 as int)) && b.0
            <= b.1 <= v@.len(),
{
    proof {
        reveal_strlit("namespace go ");
        assert("namespace go "@.len() == 13);
    }
    let len = v.len();
    if !matches_at(v, q, "namespace go ") {
        return None;
    }
    let e = run_end(v, q + 13, CharClass::WordOrDot);
    if e > q + 13 && e < len && v[e] == '\n' {
        Some((q + 13, e))
    } else {
        None
    }
}

/// The namespace that `source_str` declares, or the empty string.
pub fn parse_namespace(source_str: &str) -> (r: String)
    ensures
        r@ == namespace_of(source_str@),
{
    let v = chars_of(source_str);
    let mut q: usize = 0;
    while q < v.len()
        invariant
            v@ == source_str@,
            q <= v@.len(),
            first_namespace(v@, 0) == first_namespace(v@, q as int),
        decreases v@.len() - q,
    {
        if q == 0 || v[q - 1] == '\n' {
            match namespace_at_exec(&v, q) {
                Some((a, b)) => {
                    return string_of(&copy_range(&v, a, b));
                },
                None => {},
            }
        }
        q = q + 1;
    }
    assert(first_namespace(v@, q + 1) is None);
    String::new()
}

/// The blocks of a kind in a source text: the kind's keyword is the head
/// pattern, braces are the markers, comment lines are left out.
pub open spec fn kind_found(src: Seq<char>, k: IdlType) -> Seq<(Seq<char>, Seq<Seq<char>>)> {
    found_blocks(src, kind_keyword(k), None, None, true)
}

/// The blocks of kind `kind` in `source_str`.
fn search_kind(source_str: &str, kind: IdlType) -> (r: Vec<CodeBlock>)
    ensures
        block_views(r@) == kind_found(source_str@, kind),
{
    proof {
        reveal_strlit("struct");
        reveal_strlit("enum");
        let w = kind_keyword(kind);
        assert forall|i: int| 0 <= i < w.len() implies crate::text::is_letter(#[trigger] w[i]) by {
            match kind {
                IdlType::Interface => {
                    assert(w == seq!['s', 't', 'r', 'u', 'c', 't']);
                },
                IdlType::Enum => {
                    assert(w == seq!['e', 'n', 'u', 'm']);
                },
            }
        }
    }
    match Pattern::new(kind.as_str()) {
        Ok(re) => search_blocks_from_source(source_str, re, None, None, None),
        Err(_) => Vec::new(),
    }
}

/// The namespace of a source text and its blocks of both kinds,
/// struct-like and enum, each found with the kind's keyword as head
/// pattern and braces as markers, comment lines left out.
pub fn searcher(source_str: &str) -> (r: (String, IdlBlocksMap))
    ensures
        r.0@ == namespace_of(source_str@),
        forall|k: IdlType|
            (#[trigger] r.1.spec_get(k)) matches Some(b) && block_views(b@) == kind_found(
                source_str@,
                k,
            ),
{
    let namespace = parse_namespace(source_str);
    let mut map: IdlBlocksMap = KindMap::new();
    map.insert(IdlType::Interface, search_kind(source_str, IdlType::Interface));
    map.insert(IdlType::Enum, search_kind(source_str, IdlType::Enum));
    assert forall|k: IdlType|
        (#[trigger] map.spec_get(k)) matches Some(b) && block_views(b@) == kind_found(
            source_str@,
            k,
        ) by {
        match k {
            IdlType::Interface => {},
            IdlType::Enum => {},
        }
    }
    (namespace, map)
}

/// The blocks of kind `k` in `m`, as values.
pub open spec fn kind_blocks(m: IdlBlocksMap, k: IdlType) -> Option<Seq<CodeBlock>> {
    match m.spec_get(k) {
        Some(v) => Some(v@),
        None => None,
    }
}

/// Blocks `b` merged onto blocks `a`: appended when both are there.
pub open spec fn merged_blocks(a: Option<Seq<CodeBlock>>, b: Option<Seq<CodeBlock>>) -> Option<
    Seq<CodeBlock>,
> {
    match b {
        None => a,
        Some(y) => match a {
            Some(x) => Some(x + y),
            None => Some(y),
        },
    }
}

fn merge_blocks(a: Option<Vec<CodeBlock>>, b: Option<Vec<CodeBlock>>) -> (r: Option<
    Vec<CodeBlock>,
>)
    ensures
        (match r {
            Some(v) => Some(v@),
            None => None,
        }) == merged_blocks(
            match a {
                Some(v) => Some(v@),
                None => None,
            },
            match b {
                Some(v) => Some(v@),
                None => None,
            },
        ),
{
    match b {
        None => a,
        Some(y) => match a {
            Some(x) => {
                let mut x = x;
                let mut y = y;
                x.append(&mut y);
                Some(x)
            },
            None => Some(y),
        },
    }
}

/// The block map `new` merged onto `old`, kind by kind.
pub fn merge_kind_maps(old: IdlBlocksMap, new: IdlBlocksMap) -> (r: IdlBlocksMap)
    ensures
        forall|k: IdlType|
            #[trigger] kind_blocks(r, k) == merged_blocks(kind_blocks(old, k), kind_blocks(new, k)),
{
    let interface = merge_blocks(old.interface, new.interface);
    let enumeration = merge_blocks(old.enumeration, new.enumeration);
    let r = KindMap { interface, enumeration };
    assert forall|k: IdlType|
        #[trigger] kind_blocks(r, k) == merged_blocks(kind_blocks(old, k), kind_blocks(new, k)) by {
        match k {
            IdlType::Interface => {},
            IdlType::Enum => {},
        }
    }
    r
}

/// The blocks of kind `k` that the tree holds under `ns`, if any.
pub open spec fn tree_blocks(t: Map<Seq<char>, IdlBlocksMap>, ns: Seq<char>, k: IdlType) -> Option<
    Seq<CodeBlock>,
> {
    if t.contains_key(ns) {
        kind_blocks(t[ns], k)
    } else {
        None
    }
}

/// Merges one file's blocks into the tree under `namespace`: for each kind
/// the file has, its blocks go after those already there.
pub fn merge_file_blocks(tree: &mut NamespaceIdlBlocksMap, namespace: String, blocks: IdlBlocksMap)
    requires
        old(tree).wf(),
    ensures
        final(tree).wf(),
        final(tree)@.dom() == old(tree)@.dom().insert(namespace@),
        forall|ns: Seq<char>|
            ns != namespace@ && old(tree)@.contains_key(ns) ==> final(tree)@[ns] == old(tree)@[ns],
        forall|k: IdlType|
            #[trigger] tree_blocks(final(tree)@, namespace@, k) == merged_blocks(
                tree_blocks(old(tree)@, namespace@, k),
                kind_blocks(blocks, k),
            ),
{
    proof {
        crate::namespace::lemma_entries_dom(tree.entries@, namespace@);
    }
    match tree.position(namespace.as_str()) {
        Some(i) => {
            proof {
                crate::namespace::lemma_entries_value(tree.entries@, i as int);
            }
            let ghost e0 = tree.entries@;
            let (key, old_map) = tree.entries.remove(i);
            let merged = merge_kind_maps(old_map, blocks);
            let ghost x = (key, merged);
            tree.entries.insert(i, (key, merged));
            proof {
                assert(tree.entries@ =~= e0.update(i as int, x));
                lemma_entries_update(e0, i as int, x);
            }
        },
        None => {
            let merged = merge_kind_maps(KindMap::new(), blocks);
            tree.insert(namespace, merged);
        },
    }
    assert(final(tree)@.dom() =~= old(tree)@.dom().insert(namespace@));
}

/// Each per-file result `res[i]` is what `searcher` gives for
/// `sources[i]`: its namespace, and its blocks of both kinds.
pub open spec fn searched(sources: Seq<String>, res: Seq<(Seq<char>, IdlBlocksMap)>) -> bool {
    &&& res.len() == sources.len()
    &&& forall|i: int|
        0 <= i < res.len() ==> (#[trigger] res[i]).0 == namespace_of(sources[i]@) && forall|
            k: IdlType,
        |
            (#[trigger] res[i].1.spec_get(k)) matches Some(b) && block_views(b@) == kind_found(
                sources[i]@,
                k,
            )
}

/// The blocks of kind `k` under namespace `ns` after merging the first `n`
/// per-file results in order.
pub open spec fn folded_blocks(
    res: Seq<(Seq<char>, IdlBlocksMap)>,
    n: nat,
    ns: Seq<char>,
    k: IdlType,
) -> Option<Seq<CodeBlock>>
    decreases n,
{
    if n == 0 || n > res.len() {
        None
    } else {
        let before = folded_blocks(res, (n - 1) as nat, ns, k);
        if res[n - 1].0 == ns {
            merged_blocks(before, kind_blocks(res[n - 1].1, k))
        } else {
            before
        }
    }
}

/// The namespace tree of a set of source texts, taken in the order given:
/// the namespaces that the texts declare, and under each, for each kind,
/// the blocks of the texts of that namespace one text after the other.
pub fn collect_idl_blocks(sources: &Vec<String>) -> (r: NamespaceIdlBlocksMap)
    ensures
        r.wf(),
        forall|ns: Seq<char>|
            r@.contains_key(ns) <==> exists|i: int|
                0 <= i < sources@.len() && namespace_of((#[trigger] sources@[i])@) == ns,
        exists|res: Seq<(Seq<char>, IdlBlocksMap)>|
            {
                &&& searched(sources@, res)
                &&& forall|ns: Seq<char>, k: IdlType|
                    #[trigger] tree_blocks(r@, ns, k) == folded_blocks(res, res.len(), ns, k)
            },
{
    let mut tree: NamespaceIdlBlocksMap = NamespaceMap::new();
    let ghost mut res: Seq<(Seq<char>, IdlBlocksMap)> = Seq::empty();
    let mut i: usize = 0;
    while i < sources.len()
        invariant
            i <= sources@.len(),
            tree.wf(),
            forall|ns: Seq<char>|
                tree@.contains_key(ns) <==> exists|j: int|
                    0 <= j < i && namespace_of((#[trigger] sources@[j])@) == ns,
            searched(sources@.subrange(0, i as int), res),
            forall|ns: Seq<char>, k: IdlType|
                #[trigger] tree_blocks(tree@, ns, k) == folded_blocks(res, i as nat, ns, k),
        decreases sources@.len() - i,
    {
        let (namespace, blocks) = searcher(sources[i].as_str());
        let ghost old_tree = tree@;
        let ghost item = (namespace@, blocks);
        merge_file_blocks(&mut tree, namespace, blocks);
        proof {
            assert forall|ns: Seq<char>|
                tree@.contains_key(ns) <==> exists|j: int|
                    0 <= j < i + 1 && namespace_of((#[trigger] sources@[j])@) == ns by {
                if ns == namespace_of(sources@[i as int]@) {
                    assert(namespace_of(sources@[i as int]@) == ns);
                }
            }
            let res2 = res.push(item);
            assert forall|ns: Seq<char>, k: IdlType|
                #[trigger] tree_blocks(tree@, ns, k) == folded_blocks(res2, (i + 1) as nat, ns, k) by {
                assert(res2[i as int] == item);
                lemma_folded_prefix(res, item, i as nat, ns, k);
                assert(tree_blocks(old_tree, ns, k) == folded_blocks(res, i as nat, ns, k));
                assert(folded_blocks(res2, (i + 1) as nat, ns, k) == if item.0 == ns {
                    merged_blocks(folded_blocks(res2, i as nat, ns, k), kind_blocks(item.1, k))
                } else {
                    folded_blocks(res2, i as nat, ns, k)
                });
                if ns != item.0 {
                    if old_tree.contains_key(ns) {
                        assert(tree@[ns] == old_tree[ns]);
                    } else {
                        assert(!tree@.contains_key(ns));
                    }
                }
            }
            let sub = sources@.subrange(0, i + 1);
            assert forall|j: int| 0 <= j < res2.len() implies (#[trigger] res2[j]).0 == namespace_of(
                sub[j]@,
            ) && forall|k: IdlType|
                (#[trigger] res2[j].1.spec_get(k)) matches Some(b) && block_views(b@) == kind_found(
                    sub[j]@,
                    k,
                ) by {
                if j < i {
                    assert(res2[j] == res[j]);
                    assert(sub[j] == sources@.subrange(0, i as int)[j]);
                }
            }
            res = res2;
        }
        i = i + 1;
    }
    proof {
        assert(sources@.subrange(0, i as int) =~= sources@);
    }
    tree
}

/// Results after the first `n` are not read by the fold up to `n`.
proof fn lemma_folded_prefix(
    res: Seq<(Seq<char>, IdlBlocksMap)>,
    item: (Seq<char>, IdlBlocksMap),
    n: nat,
    ns: Seq<char>,
    k: IdlType,
)
    requires
        n <= res.len(),
    ensures
        folded_blocks(res.push(item), n, ns, k) == folded_blocks(res, n, ns, k),
    decreases n,
{
    if n > 0 {
        lemma_folded_prefix(res, item, (n - 1) as nat, ns, k);
        assert(res.push(item)[n - 1] == res[n - 1]);
    }
}

} // verus!
