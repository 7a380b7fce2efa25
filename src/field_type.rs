//! The type classifier: a type token of a field becomes a tagged type,
//! recursing into map key and value types.
use vstd::prelude::*;

use crate::text::{
    chars_of, copy_range, eq_str, is_cap_ident, is_letter, is_letter_char, is_word, is_word_char, is_letter_run, lemma_split_len, lemma_split_piece, lemma_trim_len, split_chars, split_on, starts_with_str,
    string_of, string_views, trim, trim_bounds, views,
};

verus! {

/// The mathematical value of a field type.
pub enum FieldTypeView {
    Number,
    Numbers,
    Text,
    Texts,
    Boolean,
    Booleans,
    Refer(Seq<char>, Seq<Seq<char>>),
    Refers(Seq<char>, Seq<Seq<char>>),
    Mapping(Box<FieldTypeView>, Box<FieldTypeView>),
    Unknown,
}

/// The type of an interface field.
#[derive(Debug, PartialEq)]
pub enum InterfaceFieldType {
    Number,
    Numbers,
    String,
    Strings,
    Boolean,
    Booleans,
    Refer(InterfaceFieldRefer),
    Refers(InterfaceFieldRefer),
    Mapping(InterfaceFieldMap),
    Unknown,
}

/// A reference to a declaration, possibly in another namespace.
#[derive(Debug, Clone, PartialEq)]
pub struct InterfaceFieldRefer {
    pub refer: String,
    pub namespace: Vec<String>,
}

/// The key and value types of a map.
#[derive(Debug, PartialEq)]
pub struct InterfaceFieldMap {
    pub key: Box<InterfaceFieldType>,
    pub value: Box<InterfaceFieldType>,
}

pub open spec fn field_type_view(t: InterfaceFieldType) -> FieldTypeView
    decreases t,
{
    match t {
        InterfaceFieldType::Number => FieldTypeView::Number,
        InterfaceFieldType::Numbers => FieldTypeView::Numbers,
        InterfaceFieldType::String => FieldTypeView::Text,
        InterfaceFieldType::Strings => FieldTypeView::Texts,
        InterfaceFieldType::Boolean => FieldTypeView::Boolean,
        InterfaceFieldType::Booleans => FieldTypeView::Booleans,
        InterfaceFieldType::Refer(r) => FieldTypeView::Refer(r.refer@, string_views(r.namespace@)),
        InterfaceFieldType::Refers(r) => FieldTypeView::Refers(
            r.refer@,
            string_views(r.namespace@),
        ),
        InterfaceFieldType::Mapping(m) => FieldTypeView::Mapping(
            Box::new(field_type_view(*m.key)),
            Box::new(field_type_view(*m.value)),
        ),
        InterfaceFieldType::Unknown => FieldTypeView::Unknown,
    }
}

impl View for InterfaceFieldType {
    type V = FieldTypeView;

    open spec fn view(&self) -> FieldTypeView {
        field_type_view(*self)
    }
}

/// The fixed table of primitive and primitive-list spellings.
pub open spec fn literal_type(s: Seq<char>) -> Option<FieldTypeView> {
    if s == "i32"@ {
        Some(FieldTypeView::Number)
    } else if s == "list<i32>"@ {
        Some(FieldTypeView::Numbers)
    } else if s == "i64"@ || s == "string"@ {
        Some(FieldTypeView::Text)
    } else if s == "list<i64>"@ || s == "list<string>"@ {
        Some(FieldTypeView::Texts)
    } else if s == "bool"@ {
        Some(FieldTypeView::Boolean)
    } else if s == "list<bool>"@ {
        Some(FieldTypeView::Booleans)
    } else {
        None
    }
}

/// Nesting depth of angle brackets at the end of `x`: each `<` opens one
/// level and each `>` closes one.
pub open spec fn angle_depth(x: Seq<char>) -> int
    decreases x.len(),
{
    if x.len() == 0 {
        0
    } else {
        angle_depth(x.drop_last()) + if x.last() == '<' {
            1int
        } else if x.last() == '>' {
            -1int
        } else {
            0int
        }
    }
}

/// The first comma at position `i` or later that no angle bracket encloses,
/// or the length of `x` if there is none.
pub open spec fn top_comma_from(x: Seq<char>, i: nat) -> nat
    decreases x.len() - i,
{
    if i >= x.len() {
        x.len()
    } else if x[i as int] == ',' && angle_depth(x.subrange(0, i as int)) == 0 {
        i
    } else {
        top_comma_from(x, i + 1)
    }
}

/// The first comma of `x` that no angle bracket encloses, or `x.len()`.
pub open spec fn top_comma(x: Seq<char>) -> nat {
    top_comma_from(x, 0)
}

/// What stands between `map<` and the closing `>`.
pub open spec fn map_inner(s: Seq<char>) -> Seq<char> {
    s.subrange(4, s.len() - 1)
}

/// `map<X, Y>`: the token opens with `map<`, closes with `>`, and a comma
/// outside any nested brackets parts key from value.
pub open spec fn is_map_form(s: Seq<char>) -> bool {
    &&& s.len() >= 5
    &&& s.subrange(0, 4) == "map<"@
    &&& s.last() == '>'
    &&& top_comma(map_inner(s)) < map_inner(s).len()
}

/// The key type token of a map form.
pub open spec fn map_key(s: Seq<char>) -> Seq<char> {
    trim(map_inner(s).subrange(0, top_comma(map_inner(s)) as int))
}

/// The value type token of a map form.
pub open spec fn map_value(s: Seq<char>) -> Seq<char> {
    let x = map_inner(s);
    trim(x.subrange(top_comma(x) + 1int, x.len() as int))
}

/// A qualified name: dot-separated segments of letters, the last of them
/// a capitalized identifier.
pub open spec fn is_qualified(q: Seq<char>) -> bool {
    let parts = split_on(q, '.');
    &&& forall|k: int| 0 <= k < parts.len() - 1 ==> is_letter_run(#[trigger] parts[k])
    &&& is_cap_ident(parts.last())
}

/// The declaration named by a qualified name: its last segment.
pub open spec fn qualified_name(q: Seq<char>) -> Seq<char> {
    split_on(q, '.').last()
}

/// The namespace path of a qualified name: all segments but the last.
pub open spec fn qualified_path(q: Seq<char>) -> Seq<Seq<char>> {
    split_on(q, '.').drop_last()
}

/// What stands between `list<` and the closing `>`.
pub open spec fn list_inner(s: Seq<char>) -> Seq<char> {
    s.subrange(5, s.len() - 1)
}

/// `list<Q>` with `Q` a qualified name.
pub open spec fn is_list_form(s: Seq<char>) -> bool {
    &&& s.len() >= 6
    &&& s.subrange(0, 5) == "list<"@
    &&& s.last() == '>'
    &&& is_qualified(list_inner(s))
}

/// The type that a type token stands for. The first form that matches
/// wins: the literal table, a map, a list of references, a reference;
/// anything else is `Unknown`.
pub open spec fn classify(s: Seq<char>) -> FieldTypeView
    decreases s.len(),
    via classify_decreases
{
    match literal_type(s) {
        Some(t) => t,
        None => if is_map_form(s) {
            FieldTypeView::Mapping(Box::new(classify(map_key(s))), Box::new(classify(map_value(s))))
        } else if is_list_form(s) {
            FieldTypeView::Refers(qualified_name(list_inner(s)), qualified_path(list_inner(s)))
        } else if is_qualified(s) {
            FieldTypeView::Refer(qualified_name(s), qualified_path(s))
        } else {
            FieldTypeView::Unknown
        },
    }
}

#[via_fn]
proof fn classify_decreases(s: Seq<char>) {
    if literal_type(s) is None && is_map_form(s) {
        let x = map_inner(s);
        let c = top_comma(x);
        lemma_trim_len(x.subrange(0, c as int));
        lemma_trim_len(x.subrange(c + 1int, x.len() as int));
    }
}

/// The text that a field type is written as in generated code.
pub open spec fn type_text(t: FieldTypeView) -> Seq<char>
    decreases t,
{
    match t {
        FieldTypeView::Number => "number"@,
        FieldTypeView::Numbers => "number[]"@,
        FieldTypeView::Text => "string"@,
        FieldTypeView::Texts => "string[]"@,
        FieldTypeView::Boolean => "boolean"@,
        FieldTypeView::Booleans => "boolean[]"@,
        FieldTypeView::Refer(n, _) => n,
        FieldTypeView::Refers(n, _) => n + "[]"@,
        FieldTypeView::Mapping(k, v) => "Record<"@ + type_text(*k) + ", "@ + type_text(*v) + ">"@,
        FieldTypeView::Unknown => Seq::empty(),
    }
}

/// Every spelling of the literal table classifies as its own primitive or
/// primitive-list type.
pub proof fn law_literal_table()
    ensures
        classify("i32"@) == FieldTypeView::Number,
        classify("list<i32>"@) == FieldTypeView::Numbers,
        classify("i64"@) == FieldTypeView::Text,
        classify("string"@) == FieldTypeView::Text,
        classify("list<i64>"@) == FieldTypeView::Texts,
        classify("list<string>"@) == FieldTypeView::Texts,
        classify("bool"@) == FieldTypeView::Boolean,
        classify("list<bool>"@) == FieldTypeView::Booleans,
{
    reveal_strlit("i32");
    reveal_strlit("list<i32>");
    reveal_strlit("i64");
    reveal_strlit("string");
    reveal_strlit("list<i64>");
    reveal_strlit("list<string>");
    reveal_strlit("bool");
    reveal_strlit("list<bool>");
    assert("i64"@[1] != "i32"@[1]);
    assert("list<i64>"@ == seq!['l', 'i', 's', 't', '<', 'i', '6', '4', '>']);
    assert("list<i32>"@ == seq!['l', 'i', 's', 't', '<', 'i', '3', '2', '>']);
    assert("list<i64>"@[6] != "list<i32>"@[6]);
}

/// Classifying is a function of the token alone: two results obtained for
/// the same token are equal.
pub proof fn law_classify_repeatable(s: Seq<char>, a: InterfaceFieldType, b: InterfaceFieldType)
    requires
        a@ == classify(s),
        b@ == classify(s),
    ensures
        a@ == b@,
{
}

/// Past the end of `x`, the first top-level comma of `x + "," + y` is the
/// one right after `x`, when every comma inside `x` is nested.
proof fn lemma_top_comma_after(x: Seq<char>, y: Seq<char>, i: nat)
    requires
        i <= x.len(),
        angle_depth(x) == 0,
        forall|k: int| 0 <= k < x.len() && x[k] == ',' ==> angle_depth(x.subrange(0, k)) != 0,
    ensures
        top_comma_from(x + seq![','] + y, i) == x.len(),
    decreases x.len() - i,
{
    let inner = x + seq![','] + y;
    if i == x.len() {
        assert(inner.subrange(0, i as int) =~= x);
    } else {
        assert(inner.subrange(0, i as int) =~= x.subrange(0, i as int));
        lemma_top_comma_after(x, y, i + 1);
    }
}

/// A map token classifies as the map of the classes of its trimmed key and
/// value tokens, whatever these are, nested maps included; the key must
/// close all brackets it opens, and hold commas only inside brackets.
pub proof fn law_map_classify(x: Seq<char>, y: Seq<char>)
    requires
        angle_depth(x) == 0,
        forall|k: int| 0 <= k < x.len() && x[k] == ',' ==> angle_depth(x.subrange(0, k)) != 0,
    ensures
        classify("map<"@ + x + ","@ + y + ">"@) == FieldTypeView::Mapping(
            Box::new(classify(trim(x))),
            Box::new(classify(trim(y))),
        ),
{
    reveal_strlit("map<");
    reveal_strlit(",");
    reveal_strlit(">");
    reveal_strlit("i32");
    reveal_strlit("list<i32>");
    reveal_strlit("i64");
    reveal_strlit("string");
    reveal_strlit("list<i64>");
    reveal_strlit("list<string>");
    reveal_strlit("bool");
    reveal_strlit("list<bool>");
    let s = "map<"@ + x + ","@ + y + ">"@;
    let inner = x + seq![','] + y;
    assert(map_inner(s) =~= inner);
    assert(s.subrange(0, 4) =~= "map<"@);
    assert(s[0] == 'm');
    lemma_top_comma_after(x, y, 0);
    assert(inner.subrange(0, x.len() as int) =~= x);
    assert(inner.subrange(x.len() + 1int, inner.len() as int) =~= y);
}

/// The text of a qualified name: the path segments and the name, joined by
/// dots.
pub open spec fn qualified_text(path: Seq<Seq<char>>, name: Seq<char>) -> Seq<char>
    decreases path.len(),
{
    if path.len() == 0 {
        name
    } else {
        path[0] + seq!['.'] + qualified_text(path.drop_first(), name)
    }
}

proof fn lemma_qualified_text(path: Seq<Seq<char>>, name: Seq<char>)
    requires
        forall|i: int| 0 <= i < path.len() ==> is_letter_run(#[trigger] path[i]),
        is_cap_ident(name),
    ensures
        split_on(qualified_text(path, name), '.') == path.push(name),
        forall|i: int|
            0 <= i < qualified_text(path, name).len() ==> is_word(
                #[trigger] qualified_text(path, name)[i],
            ) || qualified_text(path, name)[i] == '.',
        qualified_text(path, name).len() >= name.len(),
        qualified_text(path, name)[qualified_text(path, name).len() - name.len()] == name[0],
    decreases path.len(),
{
    let q = qualified_text(path, name);
    if path.len() == 0 {
        assert forall|k: int| 0 <= k < name.len() implies name[k] != '.' by {
            assert(is_word(name[k]));
        }
        lemma_split_piece(name, Seq::<char>::empty(), '.');
        assert(path.push(name) =~= seq![name]);
    } else {
        let rest = path.drop_first();
        assert forall|i: int| 0 <= i < rest.len() implies is_letter_run(#[trigger] rest[i]) by {
            assert(rest[i] == path[i + 1]);
        }
        lemma_qualified_text(rest, name);
        let t = qualified_text(rest, name);
        assert(is_letter_run(path[0]));
        lemma_split_piece(path[0], t, '.');
        assert(seq![path[0]] + rest.push(name) =~= path.push(name));
        assert forall|i: int| 0 <= i < q.len() implies is_word(#[trigger] q[i]) || q[i]
            == '.' by {
            if i < path[0].len() {
                assert(q[i] == path[0][i]);
                assert(is_letter(path[0][i]));
            } else if i > path[0].len() {
                assert(q[i] == t[i - path[0].len() - 1]);
            }
        }
        assert(q[q.len() - name.len()] == t[t.len() - name.len()]);
    }
}

/// No spelling of the literal table holds a capital letter.
proof fn lemma_literal_lower(s: Seq<char>)
    requires
        literal_type(s) is Some,
    ensures
        forall|k: int| 0 <= k < s.len() ==> !crate::text::is_upper(#[trigger] s[k]),
{
    reveal_strlit("i32");
    reveal_strlit("list<i32>");
    reveal_strlit("i64");
    reveal_strlit("string");
    reveal_strlit("list<i64>");
    reveal_strlit("list<string>");
    reveal_strlit("bool");
    reveal_strlit("list<bool>");
}

/// A qualified name `a.b.C` classifies as a reference to `C` in the
/// namespace path `[a, b]`; wrapped as `list<a.b.C>` it classifies as a
/// list of references with the same name and path.
pub proof fn law_qualified_classify(path: Seq<Seq<char>>, name: Seq<char>)
    requires
        forall|i: int| 0 <= i < path.len() ==> is_letter_run(#[trigger] path[i]),
        is_cap_ident(name),
    ensures
        classify(qualified_text(path, name)) == FieldTypeView::Refer(name, path),
        classify("list<"@ + qualified_text(path, name) + ">"@) == FieldTypeView::Refers(
            name,
            path,
        ),
{
    reveal_strlit("map<");
    reveal_strlit("list<");
    reveal_strlit(">");
    let q = qualified_text(path, name);
    lemma_qualified_text(path, name);
    let p = q.len() - name.len();
    assert(crate::text::is_upper(q[p]));
    if literal_type(q) is Some {
        lemma_literal_lower(q);
    }
    if q.len() >= 4 {
        assert(is_word(q[3]) || q[3] == '.');
        assert(q.subrange(0, 4)[3] == q[3]);
    }
    assert(!is_map_form(q));
    assert(!is_list_form(q));
    assert(is_qualified(q));
    assert(path.push(name).drop_last() =~= path);
    let t = "list<"@ + q + ">"@;
    assert(t[5 + p] == q[p]);
    if literal_type(t) is Some {
        lemma_literal_lower(t);
    }
    assert(t[0] == 'l');
    assert(t.subrange(0, 4)[0] == t[0]);
    assert(t.subrange(0, 5) =~= "list<"@);
    assert(list_inner(t) =~= q);
}

/// The entry of the literal table for `v`, if any.
fn lookup_literal(v: &Vec<char>) -> (r: Option<InterfaceFieldType>)
    ensures
        r is Some <==> literal_type(v@) is Some,
        r is Some ==> r->0@ == literal_type(v@)->0,
{
    if eq_str(v, "i32") {
        Some(InterfaceFieldType::Number)
    } else if eq_str(v, "list<i32>") {
        Some(InterfaceFieldType::Numbers)
    } else if eq_str(v, "i64") || eq_str(v, "string") {
        Some(InterfaceFieldType::String)
    } else if eq_str(v, "list<i64>") || eq_str(v, "list<string>") {
        Some(InterfaceFieldType::Strings)
    } else if eq_str(v, "bool") {
        Some(InterfaceFieldType::Boolean)
    } else if eq_str(v, "list<bool>") {
        Some(InterfaceFieldType::Booleans)
    } else {
        None
    }
}

/// The position of the top-level comma in `v[4..len-1]`, relative to 4.
fn find_top_comma(v: &Vec<char>) -> (r: usize)
    requires
        v@.len() >= 5,
    ensures
        r == top_comma(map_inner(v@)),
{
    let ghost x = map_inner(v@);
    let end = v.len() - 1;
    let mut i: usize = 4;
    let mut opens: usize = 0;
    let mut closes: usize = 0;
    while i < end
        invariant
            end == v@.len() - 1,
            4 <= i <= end,
            x == v@.subrange(4, end as int),
            opens <= i,
            closes <= i,
            opens - closes == angle_depth(x.subrange(0, i - 4)),
            top_comma(x) == top_comma_from(x, (i - 4) as nat),
        decreases end - i,
    {
        let c = v[i];
        if c == ',' && opens == closes {
            return i - 4;
        }
        proof {
            assert(x.subrange(0, i - 4 + 1).drop_last() =~= x.subrange(0, i - 4));
        }
        if c == '<' {
            opens = opens + 1;
        } else if c == '>' {
            closes = closes + 1;
        }
        i = i + 1;
    }
    end - 4
}

/// Whether the view of a vector of pieces are all letter runs.
fn all_letter_runs(parts: &Vec<Vec<char>>, n: usize) -> (r: bool)
    requires
        n <= parts@.len(),
    ensures
        r == forall|k: int| 0 <= k < n ==> is_letter_run(#[trigger] views(parts@)[k]),
{
    let mut k: usize = 0;
    while k < n
        invariant
            n <= parts@.len(),
            k <= n,
            forall|m: int| 0 <= m < k ==> is_letter_run(#[trigger] views(parts@)[m]),
        decreases n - k,
    {
        if !letter_run(&parts[k]) {
            assert(!is_letter_run(views(parts@)[k as int]));
            return false;
        }
        k = k + 1;
    }
    true
}

/// Whether `p` is a nonempty run of letters.
fn letter_run(p: &Vec<char>) -> (r: bool)
    ensures
        r == is_letter_run(p@),
{
    if p.len() == 0 {
        return false;
    }
    let mut i: usize = 0;
    while i < p.len()
        invariant
            i <= p@.len(),
            forall|k: int| 0 <= k < i ==> is_letter(#[trigger] p@[k]),
        decreases p@.len() - i,
    {
        if !is_letter_char(p[i]) {
            return false;
        }
        i = i + 1;
    }
    true
}

/// Whether `p` is a capitalized identifier.
fn cap_ident(p: &Vec<char>) -> (r: bool)
    ensures
        r == is_cap_ident(p@),
{
    let n = p.len();
    if n < 1 || !crate::text::is_upper_char(p[0]) {
        return false;
    }
    let mut i: usize = 0;
    while i < n
        invariant
            n == p@.len(),
            i <= n,
            forall|k: int| 0 <= k < i ==> is_word(#[trigger] p@[k]),
        decreases n - i,
    {
        if !is_word_char(p[i]) {
            return false;
        }
        i = i + 1;
    }
    true
}

/// The strings of the given character vectors.
fn strings_of(parts: &Vec<Vec<char>>, n: usize) -> (r: Vec<String>)
    requires
        n <= parts@.len(),
    ensures
        string_views(r@) == views(parts@).subrange(0, n as int),
{
    let mut r: Vec<String> = Vec::new();
    let mut k: usize = 0;
    while k < n
        invariant
            n <= parts@.len(),
            k <= n,
            string_views(r@) == views(parts@).subrange(0, k as int),
        decreases n - k,
    {
        let s = string_of(&parts[k]);
        proof {
            assert(views(parts@)[k as int] == parts@[k as int]@);
            assert(string_views(r@.push(s)) =~= string_views(r@).push(s@));
            assert(views(parts@).subrange(0, k as int).push(s@) =~= views(parts@).subrange(
                0,
                k + 1,
            ));
        }
        r.push(s);
        k = k + 1;
    }
    r
}

/// The reference that `v[from..to]` names, if it is a qualified name.
fn qualified(v: &Vec<char>, from: usize, to: usize) -> (r: Option<InterfaceFieldRefer>)
    requires
        from <= to <= v@.len(),
    ensures
        r is Some <==> is_qualified(v@.subrange(from as int, to as int)),
        r is Some ==> r->0.refer@ == qualified_name(v@.subrange(from as int, to as int))
            && string_views(r->0.namespace@) == qualified_path(
            v@.subrange(from as int, to as int),
        ),
{
    let ghost q = v@.subrange(from as int, to as int);
    let parts = split_chars(v, from, to, '.');
    proof {
        lemma_split_len(q, '.');
    }
    let n = parts.len();
    if !all_letter_runs(&parts, n - 1) || !cap_ident(&parts[n - 1]) {
        return None;
    }
    let refer = string_of(&parts[n - 1]);
    let namespace = strings_of(&parts, n - 1);
    proof {
        assert(views(parts@).subrange(0, n - 1) =~= split_on(q, '.').drop_last());
    }
    Some(InterfaceFieldRefer { refer, namespace })
}

/// Classifies the token `v`.
pub(crate) fn classify_chars(v: &Vec<char>) -> (r: InterfaceFieldType)
    ensures
        r@ == classify(v@),
    decreases v@.len(),
{
    match lookup_literal(v) {
        Some(t) => {
            return t;
        },
        None => {},
    }
    let n = v.len();
    proof {
        reveal_strlit("map<");
        reveal_strlit("list<");
    }
    if n >= 5 && starts_with_str(v, "map<") && v[n - 1] == '>' {
        let c = find_top_comma(v);
        if c < n - 5 {
            proof {
                assert(v@.last() == v@[n - 1]);
            }
            let (a, b) = trim_bounds(v, 4, 4 + c);
            let (d, e) = trim_bounds(v, 5 + c, n - 1);
            let key = copy_range(v, a, b);
            let value = copy_range(v, d, e);
            proof {
                let x = map_inner(v@);
                assert(x.subrange(0, c as int) =~= v@.subrange(4, 4 + c));
                assert(x.subrange(c + 1, x.len() as int) =~= v@.subrange(5 + c, n - 1));
            }
            let kt = classify_chars(&key);
            let vt = classify_chars(&value);
            return InterfaceFieldType::Mapping(
                InterfaceFieldMap { key: Box::new(kt), value: Box::new(vt) },
            );
        }
    }
    if n >= 6 && starts_with_str(v, "list<") && v[n - 1] == '>' {
        match qualified(v, 5, n - 1) {
            Some(r) => {
                return InterfaceFieldType::Refers(r);
            },
            None => {},
        }
    }
    proof {
        assert(v@.subrange(0, n as int) =~= v@);
    }
    match qualified(v, 0, n) {
        Some(r) => InterfaceFieldType::Refer(r),
        None => InterfaceFieldType::Unknown,
    }
}

impl InterfaceFieldType {
    /// The type that the token `s` stands for (see `classify`).
    pub fn from_str(s: &str) -> (r: InterfaceFieldType)
        ensures
            r@ == classify(s@),
    {
        let v = chars_of(s);
        classify_chars(&v)
    }

    /// The text this type is written as in generated code.
    pub fn to_field_type_str(&self) -> (r: String)
        ensures
            r@ == type_text(self@),
        decreases self,
    {
        match self {
            InterfaceFieldType::Number => String::from_str("number"),
            InterfaceFieldType::Numbers => String::from_str("number[]"),
            InterfaceFieldType::String => String::from_str("string"),
            InterfaceFieldType::Strings => String::from_str("string[]"),
            InterfaceFieldType::Boolean => String::from_str("boolean"),
            InterfaceFieldType::Booleans => String::from_str("boolean[]"),
            InterfaceFieldType::Refer(r) => r.refer.clone(),
            InterfaceFieldType::Refers(r) => r.refer.clone().concat("[]"),
            InterfaceFieldType::Mapping(m) => {
                let k = m.key.to_field_type_str();
                let v = m.value.to_field_type_str();
                let mut out = String::from_str("Record<");
                out.append(k.as_str());
                out.append(", ");
                out.append(v.as_str());
                out.append(">");
                out
            },
            InterfaceFieldType::Unknown => String::new(),
        }
    }
}

} // verus!
