//! Character-level helpers: whitespace, trimming, splitting and the
//! conversions between `str`/`String` and vectors of characters.
use vstd::prelude::*;

verus! {

/// The Unicode `White_Space` property, as used by `char::is_whitespace`
/// and by the `\s` class of Unicode regular expressions.
pub open spec fn is_ws(c: char) -> bool {
    let u = c as u32;
    (9 <= u && u <= 13) || u == 32 || u == 0x85 || u == 0xA0 || u == 0x1680 || (0x2000 <= u
        && u <= 0x200A) || u == 0x2028 || u == 0x2029 || u == 0x202F || u == 0x205F || u
        == 0x3000
}

pub fn is_ws_char(c: char) -> (r: bool)
    ensures
        r == is_ws(c),
{
    let u = c as u32;
    (9 <= u && u <= 13) || u == 32 || u == 0x85 || u == 0xA0 || u == 0x1680 || (0x2000 <= u
        && u <= 0x200A) || u == 0x2028 || u == 0x2029 || u == 0x202F || u == 0x205F || u
        == 0x3000
}

/// ASCII digit.
pub open spec fn is_digit(c: char) -> bool {
    '0' <= c && c <= '9'
}

pub open spec fn is_upper(c: char) -> bool {
    'A' <= c && c <= 'Z'
}

pub open spec fn is_lower(c: char) -> bool {
    'a' <= c && c <= 'z'
}

pub open spec fn is_letter(c: char) -> bool {
    is_upper(c) || is_lower(c)
}

/// Whether a character outside ASCII is a Unicode word character, as
/// `regex_syntax::is_word_character` decides it (the `\w` class).
pub uninterp spec fn unicode_word(c: char) -> bool;

/// A word character, as the `\w` class of Unicode regular expressions
/// has it: in ASCII a letter, digit or underscore; beyond ASCII a Unicode
/// word character.
pub open spec fn is_word(c: char) -> bool {
    if (c as u32) < 128 {
        is_letter(c) || is_digit(c) || c == '_'
    } else {
        unicode_word(c)
    }
}

/// Whether a character outside ASCII is a decimal digit as the `\d` class
/// of the regex crate has it (Unicode `Decimal_Number`).
pub uninterp spec fn unicode_digit(c: char) -> bool;

/// A decimal digit, as the `\d` class of Unicode regular expressions has
/// it: in ASCII `0` to `9`; beyond ASCII a Unicode decimal digit.
pub open spec fn is_decimal(c: char) -> bool {
    if (c as u32) < 128 {
        is_digit(c)
    } else {
        unicode_digit(c)
    }
}

/// Relies on `regex::Regex::is_match` with the class `\d`: whether `c` is
/// a Unicode decimal digit. The class always compiles; were it ever to
/// fail, no character would count.
#[verifier::external_body]
fn unicode_digit_char(c: char) -> (r: bool)
    ensures
        r == unicode_digit(c),
{
    regex::Regex::new(r"^\d$").map(|re| re.is_match(c.encode_utf8(&mut [0u8; 4]))).unwrap_or(false)
}

pub fn is_decimal_char(c: char) -> (r: bool)
    ensures
        r == is_decimal(c),
{
    if (c as u32) < 128 {
        is_digit_char(c)
    } else {
        unicode_digit_char(c)
    }
}

/// Relies on `regex_syntax::is_word_character`: whether `c` is a Unicode
/// word character (Alphabetic, Join_Control, Decimal_Number, Mark or
/// Connector_Punctuation). It panics only without the crate's
/// `unicode-perl` feature, which its default features enable.
#[verifier::external_body]
fn unicode_word_char(c: char) -> (r: bool)
    ensures
        r == unicode_word(c),
{
    regex_syntax::is_word_character(c)
}

pub fn is_digit_char(c: char) -> (r: bool)
    ensures
        r == is_digit(c),
{
    '0' <= c && c <= '9'
}

pub fn is_upper_char(c: char) -> (r: bool)
    ensures
        r == is_upper(c),
{
    'A' <= c && c <= 'Z'
}

pub fn is_lower_char(c: char) -> (r: bool)
    ensures
        r == is_lower(c),
{
    'a' <= c && c <= 'z'
}

pub fn is_word_char(c: char) -> (r: bool)
    ensures
        r == is_word(c),
{
    if (c as u32) < 128 {
        is_upper_char(c) || is_lower_char(c) || is_digit_char(c) || c == '_'
    } else {
        unicode_word_char(c)
    }
}

pub fn is_letter_char(c: char) -> (r: bool)
    ensures
        r == is_letter(c),
{
    is_upper_char(c) || is_lower_char(c)
}

/// A nonempty run of letters.
pub open spec fn is_letter_run(p: Seq<char>) -> bool {
    p.len() >= 1 && forall|k: int| 0 <= k < p.len() ==> is_letter(#[trigger] p[k])
}

/// A capitalized identifier: a capital letter, then word characters.
pub open spec fn is_cap_ident(p: Seq<char>) -> bool {
    &&& p.len() >= 1
    &&& is_upper(p[0])
    &&& forall|k: int| 0 <= k < p.len() ==> is_word(#[trigger] p[k])
}

/// Number of leading whitespace characters.
pub open spec fn lead_ws(s: Seq<char>) -> nat
    decreases s.len(),
{
    if s.len() > 0 && is_ws(s[0]) {
        1 + lead_ws(s.drop_first())
    } else {
        0
    }
}

/// Number of trailing whitespace characters.
pub open spec fn trail_ws(s: Seq<char>) -> nat
    decreases s.len(),
{
    if s.len() > 0 && is_ws(s.last()) {
        1 + trail_ws(s.drop_last())
    } else {
        0
    }
}

/// `s` without leading whitespace.
pub open spec fn trim_start(s: Seq<char>) -> Seq<char> {
    s.subrange(lead_ws(s) as int, s.len() as int)
}

/// `s` without leading and trailing whitespace, as `str::trim` gives it.
pub open spec fn trim(s: Seq<char>) -> Seq<char> {
    let t = trim_start(s);
    t.subrange(0, t.len() - trail_ws(t))
}

proof fn lemma_lead_ws_bound(s: Seq<char>)
    ensures
        lead_ws(s) <= s.len(),
    decreases s.len(),
{
    if s.len() > 0 && is_ws(s[0]) {
        lemma_lead_ws_bound(s.drop_first());
    }
}

proof fn lemma_trail_ws_bound(s: Seq<char>)
    ensures
        trail_ws(s) <= s.len(),
    decreases s.len(),
{
    if s.len() > 0 && is_ws(s.last()) {
        lemma_trail_ws_bound(s.drop_last());
    }
}

/// Counting leading whitespace from position `i` on.
proof fn lemma_lead_ws_step(s: Seq<char>, i: int)
    requires
        0 <= i < s.len(),
    ensures
        is_ws(s[i]) ==> lead_ws(s.subrange(i, s.len() as int)) == 1 + lead_ws(
            s.subrange(i + 1, s.len() as int),
        ),
        !is_ws(s[i]) ==> lead_ws(s.subrange(i, s.len() as int)) == 0,
{
    let a = s.subrange(i, s.len() as int);
    assert(a.drop_first() =~= s.subrange(i + 1, s.len() as int));
}

proof fn lemma_trail_ws_step(s: Seq<char>, j: int)
    requires
        0 < j <= s.len(),
    ensures
        is_ws(s[j - 1]) ==> trail_ws(s.subrange(0, j)) == 1 + trail_ws(s.subrange(0, j - 1)),
        !is_ws(s[j - 1]) ==> trail_ws(s.subrange(0, j)) == 0,
{
    let a = s.subrange(0, j);
    assert(a.drop_last() =~= s.subrange(0, j - 1));
}

/// Start and end of `trim(s)` within `s`.
pub fn trim_bounds(s: &Vec<char>, from: usize, to: usize) -> (r: (usize, usize))
    requires
        from <= to <= s@.len(),
    ensures
        from <= r.0 <= r.1 <= to,
        s@.subrange(r.0 as int, r.1 as int) == trim(s@.subrange(from as int, to as int)),
{
    let ghost w = s@.subrange(from as int, to as int);
    let mut i: usize = from;
    while i < to && is_ws_char(s[i])
        invariant
            from <= i <= to <= s@.len(),
            w == s@.subrange(from as int, to as int),
            lead_ws(w) == (i - from) + lead_ws(s@.subrange(i as int, to as int)),
        decreases to - i,
    {
        proof {
            lemma_lead_ws_step(s@.subrange(0, to as int), i as int);
            assert(s@.subrange(0, to as int).subrange(i as int, to as int) =~= s@.subrange(
                i as int,
                to as int,
            ));
            assert(s@.subrange(0, to as int).subrange(i + 1, to as int) =~= s@.subrange(
                i + 1,
                to as int,
            ));
        }
        i = i + 1;
    }
    proof {
        if i < to {
            lemma_lead_ws_step(s@.subrange(0, to as int), i as int);
            assert(s@.subrange(0, to as int).subrange(i as int, to as int) =~= s@.subrange(
                i as int,
                to as int,
            ));
        } else {
            assert(s@.subrange(i as int, to as int).len() == 0);
        }
    }
    let ghost t = trim_start(w);
    assert(t =~= s@.subrange(i as int, to as int));
    let mut j: usize = to;
    while j > i && is_ws_char(s[j - 1])
        invariant
            from <= i <= j <= to <= s@.len(),
            t == s@.subrange(i as int, to as int),
            trail_ws(t) == (to - j) + trail_ws(s@.subrange(i as int, j as int)),
        decreases j - i,
    {
        proof {
            let u = s@.subrange(i as int, to as int);
            lemma_trail_ws_step(u, j - i);
            assert(u.subrange(0, j - i) =~= s@.subrange(i as int, j as int));
            assert(u.subrange(0, j - i - 1) =~= s@.subrange(i as int, j - 1));
        }
        j = j - 1;
    }
    proof {
        let u = s@.subrange(i as int, to as int);
        if j > i {
            lemma_trail_ws_step(u, j - i);
            assert(u.subrange(0, j - i) =~= s@.subrange(i as int, j as int));
        } else {
            assert(s@.subrange(i as int, j as int).len() == 0);
        }
        assert(trim(w) =~= s@.subrange(i as int, j as int));
    }
    (i, j)
}

/// A copy of `s[from..to]`.
pub fn copy_range(s: &Vec<char>, from: usize, to: usize) -> (r: Vec<char>)
    requires
        from <= to <= s@.len(),
    ensures
        r@ == s@.subrange(from as int, to as int),
{
    let mut r: Vec<char> = Vec::new();
    let mut i: usize = from;
    while i < to
        invariant
            from <= i <= to <= s@.len(),
            r@ == s@.subrange(from as int, i as int),
        decreases to - i,
    {
        r.push(s[i]);
        i = i + 1;
        assert(r@ =~= s@.subrange(from as int, i as int));
    }
    r
}

/// The pieces of `s` between occurrences of `d`; at least one piece.
pub open spec fn split_on(s: Seq<char>, d: char) -> Seq<Seq<char>>
    decreases s.len(),
{
    if s.len() == 0 {
        seq![Seq::<char>::empty()]
    } else {
        let rest = split_on(s.drop_first(), d);
        if s[0] == d {
            seq![Seq::<char>::empty()] + rest
        } else {
            rest.update(0, seq![s[0]] + rest[0])
        }
    }
}

pub proof fn lemma_split_len(s: Seq<char>, d: char)
    ensures
        split_on(s, d).len() >= 1,
    decreases s.len(),
{
    if s.len() > 0 {
        lemma_split_len(s.drop_first(), d);
    }
}

/// A run `a` free of the delimiter joins the first piece of what follows.
pub proof fn lemma_split_prefix(a: Seq<char>, t: Seq<char>, d: char)
    requires
        forall|k: int| 0 <= k < a.len() ==> a[k] != d,
    ensures
        split_on(a + t, d) == split_on(t, d).update(0, a + split_on(t, d)[0]),
    decreases a.len(),
{
    lemma_split_len(t, d);
    if a.len() == 0 {
        assert(a + t =~= t);
        assert(split_on(t, d).update(0, a + split_on(t, d)[0]) =~= split_on(t, d));
    } else {
        let a2 = a.drop_first();
        lemma_split_prefix(a2, t, d);
        assert((a + t).drop_first() =~= a2 + t);
        assert(seq![a[0]] + (a2 + split_on(t, d)[0]) =~= a + split_on(t, d)[0]);
        assert(split_on(a + t, d) =~= split_on(t, d).update(0, a + split_on(t, d)[0]));
    }
}

/// A delimiter-free run followed by the delimiter makes a piece of its own.
pub proof fn lemma_split_piece(a: Seq<char>, t: Seq<char>, d: char)
    requires
        forall|k: int| 0 <= k < a.len() ==> a[k] != d,
    ensures
        split_on(a + seq![d] + t, d) == seq![a] + split_on(t, d),
        split_on(a, d) == seq![a],
{
    lemma_split_prefix(a, seq![d] + t, d);
    assert(a + seq![d] + t =~= a + (seq![d] + t));
    assert((seq![d] + t).drop_first() =~= t);
    lemma_split_prefix(a, Seq::<char>::empty(), d);
    assert(a + Seq::<char>::empty() =~= a);
    assert(a + Seq::<char>::empty() =~= a);
    assert(seq![Seq::<char>::empty()].update(0, a + Seq::<char>::empty()) =~= seq![a]);
    assert((seq![Seq::<char>::empty()] + split_on(t, d)).update(0, a + Seq::<char>::empty())
        =~= seq![a] + split_on(t, d));
}

/// The views of a vector of character vectors.
pub open spec fn views(v: Seq<Vec<char>>) -> Seq<Seq<char>> {
    v.map_values(|x: Vec<char>| x@)
}

/// The views of a vector of strings.
pub open spec fn string_views(v: Seq<String>) -> Seq<Seq<char>> {
    v.map_values(|x: String| x@)
}

/// The pieces of `s[from..to]` between occurrences of `d`.
pub fn split_chars(s: &Vec<char>, from: usize, to: usize, d: char) -> (r: Vec<Vec<char>>)
    requires
        from <= to <= s@.len(),
    ensures
        views(r@) == split_on(s@.subrange(from as int, to as int), d),
{
    let ghost w = s@.subrange(from as int, to as int);
    let mut done: Vec<Vec<char>> = Vec::new();
    let mut start: usize = from;
    let mut i: usize = from;
    while i < to
        invariant
            from <= start <= i <= to <= s@.len(),
            w == s@.subrange(from as int, to as int),
            split_on(w, d) == views(done@) + split_on(s@.subrange(start as int, to as int), d),
            forall|k: int| start <= k < i ==> s@[k] != d,
        decreases to - i,
    {
        if s[i] == d {
            let piece = copy_range(s, start, i);
            proof {
                let a = s@.subrange(start as int, i as int);
                let t = s@.subrange(i + 1, to as int);
                lemma_split_piece(a, t, d);
                assert(s@.subrange(start as int, to as int) =~= a + seq![d] + t);
                assert(views(done@.push(piece)) =~= views(done@).push(piece@));
                assert(views(done@) + (seq![a] + split_on(t, d)) =~= views(done@).push(a)
                    + split_on(t, d));
            }
            done.push(piece);
            start = i + 1;
        }
        i = i + 1;
    }
    let piece = copy_range(s, start, to);
    proof {
        let a = s@.subrange(start as int, to as int);
        lemma_split_piece(a, Seq::<char>::empty(), d);
        assert(views(done@.push(piece)) =~= views(done@).push(piece@));
        assert(views(done@) + seq![a] =~= views(done@).push(a));
    }
    done.push(piece);
    done
}

/// `p` without one trailing carriage return.
pub open spec fn strip_cr(p: Seq<char>) -> Seq<char> {
    if p.len() > 0 && p.last() == '\r' {
        p.drop_last()
    } else {
        p
    }
}

/// The lines of a text, as `str::lines` yields them: pieces between line
/// feeds, without a final empty piece after a closing line feed, and with
/// one carriage return dropped from the end of each piece that a line feed
/// closed.
pub open spec fn lines_of(s: Seq<char>) -> Seq<Seq<char>> {
    if s.len() == 0 {
        Seq::empty()
    } else if s.last() == '\n' {
        split_on(s.drop_last(), '\n').map_values(|p: Seq<char>| strip_cr(p))
    } else {
        let pieces = split_on(s, '\n');
        pieces.drop_last().map_values(|p: Seq<char>| strip_cr(p)).push(pieces.last())
    }
}

/// The lines of `s`, as `lines_of` states them.
pub fn split_lines(s: &Vec<char>) -> (r: Vec<Vec<char>>)
    ensures
        views(r@) == lines_of(s@),
{
    if s.len() == 0 {
        let r: Vec<Vec<char>> = Vec::new();
        assert(views(r@) =~= lines_of(s@));
        return r;
    }
    let closed = s[s.len() - 1] == '\n';
    let end = if closed {
        s.len() - 1
    } else {
        s.len()
    };
    let pieces = split_chars(s, 0, end, '\n');
    proof {
        lemma_split_len(s@.subrange(0, end as int), '\n');
        if closed {
            assert(s@.drop_last() =~= s@.subrange(0, end as int));
        } else {
            assert(s@ =~= s@.subrange(0, end as int));
        }
    }
    let n = pieces.len();
    let mut r: Vec<Vec<char>> = Vec::new();
    let mut k: usize = 0;
    while k < n
        invariant
            n == pieces@.len(),
            n >= 1,
            k <= n,
            r@.len() == k,
            forall|m: int|
                0 <= m < k ==> #[trigger] r@[m]@ == if closed || m < n - 1 {
                    strip_cr(pieces@[m]@)
                } else {
                    pieces@[m]@
                },
        decreases n - k,
    {
        let p = &pieces[k];
        let plen = p.len();
        if (closed || k < n - 1) && plen > 0 && p[plen - 1] == '\r' {
            r.push(copy_range(p, 0, plen - 1));
            assert(p@.drop_last() =~= p@.subrange(0, plen - 1));
        } else {
            r.push(copy_range(p, 0, plen));
            assert(p@ =~= p@.subrange(0, plen as int));
        }
        k = k + 1;
    }
    proof {
        let sp = views(pieces@);
        if closed {
            assert(views(r@) =~= sp.map_values(|p: Seq<char>| strip_cr(p)));
        } else {
            assert(views(r@) =~= sp.drop_last().map_values(|p: Seq<char>| strip_cr(p)).push(
                sp.last(),
            ));
        }
    }
    r
}

/// Trimming never lengthens.
pub proof fn lemma_trim_len(s: Seq<char>)
    ensures
        trim(s).len() <= s.len(),
        trim_start(s).len() <= s.len(),
{
    lemma_lead_ws_bound(s);
    lemma_trail_ws_bound(trim_start(s));
}

/// Whether `v` equals the text `lit`.
pub fn eq_str(v: &Vec<char>, lit: &str) -> (r: bool)
    ensures
        r == (v@ == lit@),
{
    let n = lit.unicode_len();
    if v.len() != n {
        return false;
    }
    let mut i: usize = 0;
    while i < n
        invariant
            n == lit@.len(),
            v@.len() == n,
            i <= n,
            forall|k: int| 0 <= k < i ==> v@[k] == lit@[k],
        decreases n - i,
    {
        if v[i] != lit.get_char(i) {
            return false;
        }
        i = i + 1;
    }
    assert(v@ =~= lit@);
    true
}

/// Whether `v` begins with the text `lit`.
pub fn starts_with_str(v: &Vec<char>, lit: &str) -> (r: bool)
    ensures
        r == (lit@.len() <= v@.len() && v@.subrange(0, lit@.len() as int) == lit@),
{
    let n = lit.unicode_len();
    if v.len() < n {
        return false;
    }
    let mut i: usize = 0;
    while i < n
        invariant
            n == lit@.len(),
            n <= v@.len(),
            i <= n,
            forall|k: int| 0 <= k < i ==> v@[k] == lit@[k],
        decreases n - i,
    {
        if v[i] != lit.get_char(i) {
            assert(v@.subrange(0, n as int)[i as int] != lit@[i as int]);
            return false;
        }
        i = i + 1;
    }
    assert(v@.subrange(0, n as int) =~= lit@);
    true
}

/// Whether the text `lit` stands in `v` at position `i`.
pub fn matches_at(v: &Vec<char>, i: usize, lit: &str) -> (r: bool)
    requires
        i <= v@.len(),
    ensures
        r == (i + lit@.len() <= v@.len() && v@.subrange(i as int, i + lit@.len()) == lit@),
{
    let n = lit.unicode_len();
    let len = v.len();
    if len - i < n {
        return false;
    }
    let mut k: usize = 0;
    while k < n
        invariant
            n == lit@.len(),
            len == v@.len(),
            i + n <= len,
            k <= n,
            forall|m: int| 0 <= m < k ==> v@[i + m] == lit@[m],
        decreases n - k,
    {
        if v[i + k] != lit.get_char(k) {
            assert(v@.subrange(i as int, i + n)[k as int] != lit@[k as int]);
            return false;
        }
        k = k + 1;
    }
    assert(v@.subrange(i as int, i + n) =~= lit@);
    true
}

/// Relies on `str::chars`: the characters of `s`, in order.
#[verifier::external_body]
pub(crate) fn chars_of(s: &str) -> (r: Vec<char>)
    ensures
        r@ == s@,
{
    s.chars().collect()
}

/// Relies on `String: FromIterator<char>`: the string of the given characters.
#[verifier::external_body]
pub(crate) fn string_of(v: &Vec<char>) -> (r: String)
    ensures
        r@ == v@,
{
    v.iter().collect()
}

} // verus!
