//! The field extractor: the lines of a block become enum or interface
//! fields, and blocks become declaration metadata.
use vstd::prelude::*;

use crate::field_type::{classify, classify_chars, FieldTypeView, InterfaceFieldType};
use crate::text::{
    copy_range, is_decimal, is_decimal_char, is_digit, is_digit_char, is_letter, is_letter_char, is_upper, is_upper_char,
    is_word, is_word_char, is_ws, is_ws_char, matches_at, string_of, string_views,
};
use crate::types::{CodeBlock, IdlBlocksMap, IdlType, KindMap};

verus! {

/// A class of characters that a run is made of.
pub enum CharClass {
    Space,
    Digit,
    Alnum,
    Word,
    WordOrDot,
}

pub open spec fn in_class(c: char, k: CharClass) -> bool {
    match k {
        CharClass::Space => is_ws(c),
        CharClass::Digit => is_decimal(c),
        CharClass::Alnum => is_letter(c) || is_digit(c),
        CharClass::Word => is_word(c),
        CharClass::WordOrDot => is_word(c) || c == '.',
    }
}

fn in_class_char(c: char, k: &CharClass) -> (r: bool)
    ensures
        r == in_class(c, *k),
{
    match k {
        CharClass::Space => is_ws_char(c),
        CharClass::Digit => is_decimal_char(c),
        CharClass::Alnum => is_letter_char(c) || is_digit_char(c),
        CharClass::Word => is_word_char(c),
        CharClass::WordOrDot => is_word_char(c) || c == '.',
    }
}

/// The length of the longest run of class `k` that starts at `i`.
pub open spec fn run_len(s: Seq<char>, i: int, k: CharClass) -> nat
    decreases s.len() - i,
{
    if 0 <= i < s.len() && in_class(s[i], k) {
        1 + run_len(s, i + 1, k)
    } else {
        0
    }
}

/// The end of the longest run of class `k` that starts at `i`.
pub(crate) fn run_end(v: &Vec<char>, i: usize, k: CharClass) -> (r: usize)
    requires
        i <= v@.len(),
    ensures
        r == i + run_len(v@, i as int, k),
        r <= v@.len(),
{
    let mut j: usize = i;
    while j < v.len() && in_class_char(v[j], &k)
        invariant
            i <= j <= v@.len(),
            run_len(v@, i as int, k) == (j - i) + run_len(v@, j as int, k),
        decreases v@.len() - j,
    {
        j = j + 1;
    }
    j
}

/// An enum member `Key = 123` starting at `i` (after optional whitespace):
/// the bounds of the key and of the value.
pub open spec fn enum_at(s: Seq<char>, i: int) -> Option<(int, int, int, int)> {
    let j = i + run_len(s, i, CharClass::Space);
    if j < s.len() && is_upper(s[j]) {
        let ke = j + 1 + run_len(s, j + 1, CharClass::Alnum);
        if ke + 3 <= s.len() && s.subrange(ke, ke + 3) == " = "@ {
            let ve = ke + 3 + run_len(s, ke + 3, CharClass::Digit);
            if ve > ke + 3 {
                Some((j, ke, ke + 3, ve))
            } else {
                None
            }
        } else {
            None
        }
    } else {
        None
    }
}

/// The field name after a type: whitespace, a word, then the end of the
/// line, whitespace, `(`, `,` or `;`. The bounds of the word.
pub open spec fn name_at(s: Seq<char>, p: int) -> Option<(int, int)> {
    let a = p + run_len(s, p, CharClass::Space);
    let b = a + run_len(s, a, CharClass::Word);
    if a > p && b > a && (b == s.len() || is_ws(s[b]) || s[b] == '(' || s[b] == ','
        || s[b] == ';') {
        Some((a, b))
    } else {
        None
    }
}

/// The last `>` at `p` or before, but not before `lo`, that a field name
/// follows: the end of a container type token, and the name's bounds.
pub open spec fn close_from(s: Seq<char>, lo: int, p: int) -> Option<(int, int, int)>
    decreases p + 1 - lo,
{
    if p < lo || p < 0 || p >= s.len() {
        None
    } else if s[p] == '>' && name_at(s, p + 1) is Some {
        let n = name_at(s, p + 1)->0;
        Some((p + 1, n.0, n.1))
    } else {
        close_from(s, lo, p - 1)
    }
}

/// A type token starting at `t` followed by a field name: the end of the
/// type token and the name's bounds. A run of word characters and dots is
/// tried first, then `map<...>` or `list<...>` up to the last `>` that a
/// name follows.
pub open spec fn type_name_at(s: Seq<char>, t: int) -> Option<(int, int, int)> {
    let e = t + run_len(s, t, CharClass::WordOrDot);
    if e > t && name_at(s, e) is Some {
        let n = name_at(s, e)->0;
        Some((e, n.0, n.1))
    } else if t + 4 <= s.len() && s.subrange(t, t + 4) == "map<"@ {
        close_from(s, t + 5, s.len() - 1)
    } else if t + 5 <= s.len() && s.subrange(t, t + 5) == "list<"@ {
        close_from(s, t + 6, s.len() - 1)
    } else {
        None
    }
}

/// An interface field `12: [optional|required] Type name` starting at `i`
/// (after optional whitespace): whether it is optional, the bounds of the
/// type token and of the name.
pub open spec fn field_at(s: Seq<char>, i: int) -> Option<(bool, int, int, int, int)> {
    let j = i + run_len(s, i, CharClass::Space);
    let d = j + run_len(s, j, CharClass::Digit);
    if d > j && d < s.len() && s[d] == ':' {
        let w = d + 1 + run_len(s, d + 1, CharClass::Space);
        if w > d + 1 {
            let opt = w + 8 <= s.len() && s.subrange(w, w + 8) == "optional"@;
            let req = w + 8 <= s.len() && s.subrange(w, w + 8) == "required"@;
            let t = w + 8 + run_len(s, w + 8, CharClass::Space);
            if (opt || req) && t > w + 8 && type_name_at(s, t) is Some {
                let r = type_name_at(s, t)->0;
                Some((opt, t, r.0, r.1, r.2))
            } else if type_name_at(s, w) is Some {
                let r = type_name_at(s, w)->0;
                Some((false, w, r.0, r.1, r.2))
            } else {
                None
            }
        } else {
            None
        }
    } else {
        None
    }
}

/// The leftmost enum member in `s` at position `i` or later.
pub open spec fn first_enum(s: Seq<char>, i: int) -> Option<(int, int, int, int)>
    decreases s.len() + 1 - i,
{
    if i < 0 || i > s.len() {
        None
    } else if enum_at(s, i) is Some {
        enum_at(s, i)
    } else {
        first_enum(s, i + 1)
    }
}

/// The leftmost interface field in `s` at position `i` or later.
pub open spec fn first_field(s: Seq<char>, i: int) -> Option<(bool, int, int, int, int)>
    decreases s.len() + 1 - i,
{
    if i < 0 || i > s.len() {
        None
    } else if field_at(s, i) is Some {
        field_at(s, i)
    } else {
        first_field(s, i + 1)
    }
}

/// The mathematical value of a field: an interface field's name, whether
/// it is optional, its type and its comment; an enum member's key and value.
pub enum MetaFieldView {
    Interface(Seq<char>, bool, FieldTypeView, Option<Seq<char>>),
    Enum(Seq<char>, Seq<char>),
}

/// The field that a line of a block of kind `k` declares, if any; an
/// interface field carries no comment.
pub open spec fn line_field(k: IdlType, s: Seq<char>) -> Option<MetaFieldView> {
    match k {
        IdlType::Enum => match first_enum(s, 0) {
            Some(m) => Some(
                MetaFieldView::Enum(s.subrange(m.0, m.1), s.subrange(m.2, m.3)),
            ),
            None => None,
        },
        IdlType::Interface => match first_field(s, 0) {
            Some(m) => Some(
                MetaFieldView::Interface(
                    s.subrange(m.3, m.4),
                    m.0,
                    classify(s.subrange(m.1, m.2)),
                    None,
                ),
            ),
            None => None,
        },
    }
}

/// The fields that the lines of a block of kind `k` declare, in line order.
pub open spec fn fields_of(k: IdlType, lines: Seq<Seq<char>>) -> Seq<MetaFieldView>
    decreases lines.len(),
{
    if lines.len() == 0 {
        Seq::empty()
    } else {
        let before = fields_of(k, lines.drop_last());
        match line_field(k, lines.last()) {
            Some(f) => before.push(f),
            None => before,
        }
    }
}

/// A field of an interface declaration.
#[derive(Debug, PartialEq)]
pub struct InterfaceField {
    pub name: String,
    pub optional: bool,
    pub field_type: InterfaceFieldType,
    pub comment: Option<String>,
}

/// A member of an enum declaration; the value is kept as written.
#[derive(Debug, Clone, PartialEq)]
pub struct EnumField {
    pub key: String,
    pub value: String,
}

/// A field of a declaration of either kind.
#[derive(Debug, PartialEq)]
pub enum IdlMetaField {
    Interface(InterfaceField),
    Enum(EnumField),
}

impl View for IdlMetaField {
    type V = MetaFieldView;

    open spec fn view(&self) -> MetaFieldView {
        match self {
            IdlMetaField::Interface(f) => MetaFieldView::Interface(
                f.name@,
                f.optional,
                f.field_type@,
                match f.comment {
                    Some(c) => Some(c@),
                    None => None,
                },
            ),
            IdlMetaField::Enum(f) => MetaFieldView::Enum(f.key@, f.value@),
        }
    }
}

/// The views of a vector of fields.
pub open spec fn field_views(v: Seq<IdlMetaField>) -> Seq<MetaFieldView> {
    v.map_values(|f: IdlMetaField| f@)
}

/// The metadata of one declaration: its name and its fields.
#[derive(Debug)]
pub struct IdlMeta {
    pub name: String,
    pub fields: Vec<IdlMetaField>,
}

/// The metadata of declarations, by kind.
pub type IdlMetaMap = KindMap<Vec<IdlMeta>>;

fn name_at_exec(v: &Vec<char>, p: usize) -> (r: Option<(usize, usize)>)
    requires
        p <= v@.len(),
    ensures
        r is Some <==> name_at(v@, p as int) is Some,
        r is Some ==> {
            let n = name_at(v@, p as int)->0;
            (r->0).0 == n.0 && (r->0).1 == n.1
        },
        r is Some ==> p <= (r->0).0 <= (r->0).1 <= v@.len(),
{
    let a = run_end(v, p, CharClass::Space);
    let b = run_end(v, a, CharClass::Word);
    if a > p && b > a && (b == v.len() || is_ws_char(v[b]) || v[b] == '(' || v[b] == ','
        || v[b] == ';') {
        Some((a, b))
    } else {
        None
    }
}

/// The container type's closing `>` at a position after `before`.
fn close_exec(v: &Vec<char>, before: usize) -> (r: Option<(usize, usize, usize)>)
    ensures
        r is Some <==> close_from(v@, before + 1, v@.len() - 1) is Some,
        r is Some ==> {
            let c = close_from(v@, before + 1, v@.len() - 1)->0;
            (r->0).0 == c.0 && (r->0).1 == c.1 && (r->0).2 == c.2
        },
        r is Some ==> before < (r->0).0 <= (r->0).1 <= (r->0).2 <= v@.len(),
{
    let mut p: usize = v.len();
    while p > 0 && p - 1 > before
        invariant
            p <= v@.len(),
            close_from(v@, before + 1, v@.len() - 1) == close_from(v@, before + 1, p - 1),
        decreases p,
    {
        let q = p - 1;
        if v[q] == '>' {
            match name_at_exec(v, q + 1) {
                Some((a, b)) => {
                    return Some((q + 1, a, b));
                },
                None => {},
            }
        }
        p = q;
    }
    None
}

fn type_name_exec(v: &Vec<char>, t: usize) -> (r: Option<(usize, usize, usize)>)
    requires
        t <= v@.len(),
    ensures
        r is Some <==> type_name_at(v@, t as int) is Some,
        r is Some ==> {
            let c = type_name_at(v@, t as int)->0;
            (r->0).0 == c.0 && (r->0).1 == c.1 && (r->0).2 == c.2
        },
        r is Some ==> t <= (r->0).0 <= (r->0).1 <= (r->0).2 <= v@.len(),
{
    proof {
        reveal_strlit("map<");
        reveal_strlit("list<");
        assert("map<"@.len() == 4);
        assert("list<"@.len() == 5);
    }
    let len = v.len();
    let e = run_end(v, t, CharClass::WordOrDot);
    if e > t {
        match name_at_exec(v, e) {
            Some((a, b)) => {
                return Some((e, a, b));
            },
            None => {},
        }
    }
    if matches_at(v, t, "map<") {
        close_exec(v, t + 4)
    } else if matches_at(v, t, "list<") {
        close_exec(v, t + 5)
    } else {
        None
    }
}

fn enum_at_exec(v: &Vec<char>, i: usize) -> (r: Option<(usize, usize, usize, usize)>)
    requires
        i <= v@.len(),
    ensures
        r is Some <==> enum_at(v@, i as int) is Some,
        r is Some ==> {
            let c = enum_at(v@, i as int)->0;
            (r->0).0 == c.0 && (r->0).1 == c.1 && (r->0).2 == c.2 && (r->0).3 == c.3
        },
        r is Some ==> (r->0).0 <= (r->0).1 <= (r->0).2 <= (r->0).3 <= v@.len(),
{
    proof {
        reveal_strlit(" = ");
    }
    let j = run_end(v, i, CharClass::Space);
    if j < v.len() && is_upper_char(v[j]) {
        let ke = run_end(v, j + 1, CharClass::Alnum);
        if matches_at(v, ke, " = ") {
            let ve = run_end(v, ke + 3, CharClass::Digit);
            if ve > ke + 3 {
                return Some((j, ke, ke + 3, ve));
            }
        }
    }
    None
}

fn field_at_exec(v: &Vec<char>, i: usize) -> (r: Option<(bool, usize, usize, usize, usize)>)
    requires
        i <= v@.len(),
    ensures
        r is Some <==> field_at(v@, i as int) is Some,
        r is Some ==> {
            let c = field_at(v@, i as int)->0;
            (r->0).0 == c.0 && (r->0).1 == c.1 && (r->0).2 == c.2 && (r->0).3 == c.3 && (r->0).4 == c.4
        },
        r is Some ==> (r->0).1 <= (r->0).2 <= (r->0).3 <= (r->0).4 <= v@.len(),
{
    proof {
        reveal_strlit("optional");
        reveal_strlit("required");
    }
    let j = run_end(v, i, CharClass::Space);
    let d = run_end(v, j, CharClass::Digit);
    if d > j && d < v.len() && v[d] == ':' {
        let w = run_end(v, d + 1, CharClass::Space);
        if w > d + 1 {
            let opt = matches_at(v, w, "optional");
            let req = matches_at(v, w, "required");
            if opt || req {
                let t = run_end(v, w + 8, CharClass::Space);
                if t > w + 8 {
                    match type_name_exec(v, t) {
                        Some((a, b, c)) => {
                            return Some((opt, t, a, b, c));
                        },
                        None => {},
                    }
                }
            }
            match type_name_exec(v, w) {
                Some((a, b, c)) => {
                    return Some((false, w, a, b, c));
                },
                None => {},
            }
        }
    }
    None
}

/// The leftmost enum member of `v`.
fn first_enum_exec(v: &Vec<char>) -> (r: Option<(usize, usize, usize, usize)>)
    ensures
        r is Some <==> first_enum(v@, 0) is Some,
        r is Some ==> {
            let c = first_enum(v@, 0)->0;
            (r->0).0 == c.0 && (r->0).1 == c.1 && (r->0).2 == c.2 && (r->0).3 == c.3
        },
        r is Some ==> (r->0).0 <= (r->0).1 <= (r->0).2 <= (r->0).3 <= v@.len(),
{
    let mut i: usize = 0;
    while i < v.len()
        invariant
            i <= v@.len(),
            first_enum(v@, 0) == first_enum(v@, i as int),
        decreases v@.len() - i,
    {
        match enum_at_exec(v, i) {
            Some(m) => {
                return Some(m);
            },
            None => {},
        }
        i = i + 1;
    }
    assert(first_enum(v@, i + 1) is None);
    enum_at_exec(v, i)
}

/// The leftmost interface field of `v`.
fn first_field_exec(v: &Vec<char>) -> (r: Option<(bool, usize, usize, usize, usize)>)
    ensures
        r is Some <==> first_field(v@, 0) is Some,
        r is Some ==> {
            let c = first_field(v@, 0)->0;
            (r->0).0 == c.0 && (r->0).1 == c.1 && (r->0).2 == c.2 && (r->0).3 == c.3 && (r->0).4 == c.4
        },
        r is Some ==> (r->0).1 <= (r->0).2 <= (r->0).3 <= (r->0).4 <= v@.len(),
{
    let mut i: usize = 0;
    while i < v.len()
        invariant
            i <= v@.len(),
            first_field(v@, 0) == first_field(v@, i as int),
        decreases v@.len() - i,
    {
        match field_at_exec(v, i) {
            Some(m) => {
                return Some(m);
            },
            None => {},
        }
        i = i + 1;
    }
    assert(first_field(v@, i + 1) is None);
    field_at_exec(v, i)
}

/// The field that the line `line` of a block of kind `k` declares, if any.
fn field_of_line(k: IdlType, line: &String) -> (r: Option<IdlMetaField>)
    ensures
        r is Some <==> line_field(k, line@) is Some,
        r is Some ==> r->0@ == line_field(k, line@)->0,
{
    let v = crate::text::chars_of(line.as_str());
    match k {
        IdlType::Enum => match first_enum_exec(&v) {
            Some((a, b, c, d)) => {
                let key = string_of(&copy_range(&v, a, b));
                let value = string_of(&copy_range(&v, c, d));
                Some(IdlMetaField::Enum(EnumField { key, value }))
            },
            None => None,
        },
        IdlType::Interface => match first_field_exec(&v) {
            Some((optional, a, b, c, d)) => {
                let field_type = classify_chars(&copy_range(&v, a, b));
                let name = string_of(&copy_range(&v, c, d));
                Some(
                    IdlMetaField::Interface(
                        InterfaceField { name, optional, field_type, comment: None },
                    ),
                )
            },
            None => None,
        },
    }
}

/// The fields that the lines of a block of kind `itype` declare, in line
/// order; lines that declare none are passed over.
pub fn parse_field_from_line(itype: IdlType, lines: &Vec<String>) -> (r: Vec<IdlMetaField>)
    ensures
        field_views(r@) == fields_of(itype, string_views(lines@)),
{
    let mut r: Vec<IdlMetaField> = Vec::new();
    let mut i: usize = 0;
    while i < lines.len()
        invariant
            i <= lines@.len(),
            field_views(r@) == fields_of(itype, string_views(lines@).subrange(0, i as int)),
        decreases lines@.len() - i,
    {
        let f = field_of_line(itype, &lines[i]);
        proof {
            let sv = string_views(lines@);
            assert(sv.subrange(0, i + 1).drop_last() =~= sv.subrange(0, i as int));
            assert(sv.subrange(0, i + 1).last() == lines@[i as int]@);
        }
        match f {
            Some(x) => {
                proof {
                    assert(field_views(r@.push(x)) =~= field_views(r@).push(x@));
                }
                r.push(x);
            },
            None => {},
        }
        i = i + 1;
    }
    proof {
        assert(string_views(lines@).subrange(0, i as int) =~= string_views(lines@));
    }
    r
}

/// The metadata `m` is what a block `b` of kind `k` yields: the block's
/// name and the fields that its lines declare.
pub open spec fn meta_of_block(k: IdlType, m: IdlMeta, b: CodeBlock) -> bool {
    &&& m.name@ == b.name@
    &&& field_views(m.fields@) == fields_of(k, string_views(b.lines@))
}

/// The metadata `ms` is what the blocks `bs` of kind `k` yield, one for one.
pub open spec fn metas_of_blocks(k: IdlType, ms: Seq<IdlMeta>, bs: Seq<CodeBlock>) -> bool {
    &&& ms.len() == bs.len()
    &&& forall|i: int| 0 <= i < ms.len() ==> meta_of_block(k, #[trigger] ms[i], bs[i])
}

/// The metadata `r` is what the block map `m` yields: an entry for each kind
/// that has one in `m`, with the metadata of its blocks.
pub open spec fn metas_of_map(r: IdlMetaMap, m: IdlBlocksMap) -> bool {
    forall|k: IdlType|
        {
            &&& (#[trigger] r.spec_get(k) is Some <==> m.spec_get(k) is Some)
            &&& r.spec_get(k) is Some ==> metas_of_blocks(k, r.spec_get(k)->0@, m.spec_get(k)->0@)
        }
}

/// The metadata of each block, for blocks of kind `k`.
fn metas_of(k: IdlType, blocks: &Vec<CodeBlock>) -> (r: Vec<IdlMeta>)
    ensures
        metas_of_blocks(k, r@, blocks@),
{
    let mut r: Vec<IdlMeta> = Vec::new();
    let mut i: usize = 0;
    while i < blocks.len()
        invariant
            i <= blocks@.len(),
            r@.len() == i,
            forall|j: int| 0 <= j < i ==> meta_of_block(k, #[trigger] r@[j], blocks@[j]),
        decreases blocks@.len() - i,
    {
        let b = &blocks[i];
        let fields = parse_field_from_line(k, &b.lines);
        r.push(IdlMeta { name: b.name.clone(), fields });
        i = i + 1;
    }
    r
}

/// The metadata of every block of a block map, kind by kind.
pub fn parser(blocks_map: &IdlBlocksMap) -> (r: IdlMetaMap)
    ensures
        metas_of_map(r, *blocks_map),
{
    let mut r: IdlMetaMap = KindMap::new();
    match blocks_map.get(&IdlType::Interface) {
        Some(v) => {
            r.insert(IdlType::Interface, metas_of(IdlType::Interface, v));
        },
        None => {},
    }
    match blocks_map.get(&IdlType::Enum) {
        Some(v) => {
            r.insert(IdlType::Enum, metas_of(IdlType::Enum, v));
        },
        None => {},
    }
    assert forall|k: IdlType|
        {
            &&& (#[trigger] r.spec_get(k) is Some <==> blocks_map.spec_get(k) is Some)
            &&& r.spec_get(k) is Some ==> metas_of_blocks(
                k,
                r.spec_get(k)->0@,
                blocks_map.spec_get(k)->0@,
            )
        } by {
        match k {
            IdlType::Interface => {},
            IdlType::Enum => {},
        }
    }
    r
}

} // verus!
