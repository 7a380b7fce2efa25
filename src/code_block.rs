//! The block scanner: finds named, brace-bounded declaration blocks in a
//! source text, line by line, leaving comment lines out.
use vstd::prelude::*;

use regex::Regex;

use crate::text::{
    chars_of, copy_range, is_ws_char, lead_ws, lines_of, split_lines, string_of,
    string_views, trail_ws, trim, trim_bounds, views,
};
use crate::types::CodeBlock;

verus! {

/// `regex::Regex`, a compiled pattern, carried through as an opaque value.
#[verifier::external_type_specification]
#[verifier::external_body]
pub struct ExRegex(regex::Regex);

/// `regex::Error`, why a pattern did not compile, carried through as an
/// opaque value.
#[verifier::external_type_specification]
#[verifier::external_body]
pub struct ExRegexError(regex::Error);

/// Where the leftmost match of the regular expression `pattern` lies in
/// `hay`: its start and end, in characters.
pub uninterp spec fn regex_find(pattern: Seq<char>, hay: Seq<char>) -> Option<(nat, nat)>;

/// How many non-overlapping matches of the regular expression `pattern`
/// `hay` holds.
pub uninterp spec fn regex_count(pattern: Seq<char>, hay: Seq<char>) -> nat;

/// A compiled regular expression, with the pattern text it was compiled
/// from. Only `Pattern::new` makes one, so the two always agree.
#[derive(Debug)]
pub struct Pattern {
    source: String,
    re: Regex,
}

impl View for Pattern {
    type V = Seq<char>;

    closed spec fn view(&self) -> Seq<char> {
        self.source@
    }
}

/// A short nonempty run of ASCII letters: a literal pattern.
pub open spec fn is_letter_literal(p: Seq<char>) -> bool {
    &&& 1 <= p.len() <= 64
    &&& forall|i: int| 0 <= i < p.len() ==> crate::text::is_letter(#[trigger] p[i])
}

/// Relies on `regex::Regex::new`: it fails only on a pattern that is not
/// valid syntax or whose compiled form is over the size limit; a short run
/// of letters is a valid literal far below that limit.
#[verifier::external_body]
fn compile(p: &str) -> (r: Result<Regex, regex::Error>)
    ensures
        is_letter_literal(p@) ==> r is Ok,
{
    Regex::new(p)
}

impl Pattern {
    /// Compiles the regular expression `p`.
    pub fn new(p: &str) -> (r: Result<Pattern, regex::Error>)
        ensures
            r matches Ok(x) ==> x@ == p@,
            is_letter_literal(p@) ==> r is Ok,
    {
        match compile(p) {
            Ok(re) => Ok(Pattern { source: String::from_str(p), re }),
            Err(e) => Err(e),
        }
    }

    /// The pattern text.
    pub fn as_str(&self) -> (r: &str)
        ensures
            r@ == self@,
    {
        self.source.as_str()
    }
}

/// Relies on `regex::Regex::find`: the leftmost match is a stretch of `s`.
/// Gives the text before the match and the matched text.
#[verifier::external_body]
fn find_first(p: &Pattern, s: &str) -> (r: Option<(String, String)>)
    ensures
        r is Some <==> regex_find(p@, s@) is Some,
        r matches Some(x) ==> (x.0@ + x.1@).len() <= s@.len() && s@.subrange(
            0,
            (x.0@ + x.1@).len() as int,
        ) == x.0@ + x.1@ && regex_find(p@, s@) == Some((x.0@.len(), (x.0@ + x.1@).len())),
{
    match p.re.find(s) {
        Some(m) => Some((s[..m.start()].to_string(), m.as_str().to_string())),
        None => None,
    }
}

/// Relies on `regex::Regex::find_iter`: the number of non-overlapping
/// matches in `s`.
#[verifier::external_body]
fn count_matches(p: &Pattern, s: &str) -> (r: usize)
    ensures
        r == regex_count(p@, s@),
{
    p.re.find_iter(s).count()
}

/// What the patterns found on one line: where the head match ends, where
/// the first open marker starts (character positions), and how many open
/// and close markers the line holds.
#[derive(Debug, Clone, Copy, PartialEq, Eq, Structural)]
pub struct LineMarks {
    pub head_end: Option<usize>,
    pub open_start: Option<usize>,
    pub opens: usize,
    pub closes: usize,
}

/// The positions of `m` lie within the line `l`.
pub open spec fn marks_fit(l: Seq<char>, m: LineMarks) -> bool {
    &&& (m.head_end matches Some(h) ==> h <= l.len())
    &&& (m.open_start matches Some(o) ==> o <= l.len())
}

/// The name of a block from its head line: the trimmed text between the
/// end of the head match and the first open marker; empty when the marker
/// comes first or the line has none.
pub open spec fn head_name(l: Seq<char>, m: LineMarks) -> Seq<char> {
    let h = m.head_end->0 as int;
    match m.open_start {
        Some(o) => if h < o {
            trim(l.subrange(h, o as int))
        } else {
            Seq::empty()
        },
        None => Seq::empty(),
    }
}

/// The line opens a multi-line comment: `/*` after leading whitespace.
pub open spec fn opens_comment(l: Seq<char>) -> bool {
    let j = lead_ws(l) as int;
    j + 2 <= l.len() && l[j] == '/' && l[j + 1] == '*'
}

/// The line closes a multi-line comment: `*/` before trailing whitespace.
pub open spec fn closes_comment(l: Seq<char>) -> bool {
    let e = l.len() - trail_ws(l);
    e >= 2 && l[e - 2] == '*' && l[e - 1] == '/'
}

/// The line is a line comment: `//` after leading whitespace.
pub open spec fn is_line_comment(l: Seq<char>) -> bool {
    let j = lead_ws(l) as int;
    j + 2 <= l.len() && l[j] == '/' && l[j + 1] == '/'
}

/// A block as values: its name and its lines.
pub type BlockView = (Seq<char>, Seq<Seq<char>>);

/// The state of the scanner between lines: inside a block, inside a
/// comment, the marker depth, the finished blocks, and the current block.
pub type ScanState = (bool, bool, int, Seq<BlockView>, BlockView);

/// The scanner's state after one more line `l` with marks `m`. A kept line
/// adds its open markers to the depth, then takes away its close markers;
/// the block closes on the line when its close markers bring a positive
/// depth down to zero, the rest of the line being of no account then.
pub open spec fn scan_step(st: ScanState, l: Seq<char>, m: LineMarks, exclude: bool) -> ScanState {
    let (ib, ic, d, done, cur) = st;
    let opened = !ib && m.head_end is Some;
    let cur1 = if opened {
        (head_name(l, m), Seq::<Seq<char>>::empty())
    } else {
        cur
    };
    if !ib && !opened {
        (false, ic, d, done, cur1)
    } else if exclude && (opens_comment(l) || (ic && closes_comment(l))) {
        (true, !closes_comment(l), d, done, cur1)
    } else if exclude && (ic || is_line_comment(l)) {
        (true, ic, d, done, cur1)
    } else {
        let cur2 = (cur1.0, cur1.1.push(l));
        let d1 = d + m.opens;
        let d2 = d1 - m.closes;
        if m.closes > 0 && d1 > 0 && d2 <= 0 {
            (false, ic, 0, done.push(cur2), (Seq::empty(), Seq::empty()))
        } else {
            (true, ic, d2, done, cur2)
        }
    }
}

/// The scanner's state after the first `n` lines.
pub open spec fn scan_upto(
    lines: Seq<Seq<char>>,
    marks: Seq<LineMarks>,
    exclude: bool,
    n: nat,
) -> ScanState
    decreases n,
{
    if n == 0 {
        (false, false, 0, Seq::empty(), (Seq::empty(), Seq::empty()))
    } else {
        scan_step(
            scan_upto(lines, marks, exclude, (n - 1) as nat),
            lines[n - 1],
            marks[n - 1],
            exclude,
        )
    }
}

/// The blocks of a text's lines: those that closed; a block still open at
/// the end is dropped.
pub open spec fn scan_blocks(
    lines: Seq<Seq<char>>,
    marks: Seq<LineMarks>,
    exclude: bool,
) -> Seq<BlockView> {
    scan_upto(lines, marks, exclude, lines.len()).3
}

/// No line of the block is a comment line: neither a line comment nor a
/// line that opens a multi-line comment.
pub open spec fn comment_free(b: BlockView) -> bool {
    forall|j: int|
        0 <= j < b.1.len() ==> !is_line_comment(#[trigger] b.1[j]) && !opens_comment(b.1[j])
}

proof fn lemma_scan_comment_free(lines: Seq<Seq<char>>, marks: Seq<LineMarks>, n: nat)
    requires
        n <= lines.len(),
        lines.len() == marks.len(),
    ensures
        comment_free(scan_upto(lines, marks, true, n).4),
        forall|i: int|
            0 <= i < scan_upto(lines, marks, true, n).3.len() ==> comment_free(
                #[trigger] scan_upto(lines, marks, true, n).3[i],
            ),
    decreases n,
{
    if n > 0 {
        lemma_scan_comment_free(lines, marks, (n - 1) as nat);
        let st0 = scan_upto(lines, marks, true, (n - 1) as nat);
        let l = lines[n - 1];
        let m = marks[n - 1];
        let opened = !st0.0 && m.head_end is Some;
        let cur1 = if opened {
            (head_name(l, m), Seq::<Seq<char>>::empty())
        } else {
            st0.4
        };
        assert(comment_free(cur1));
        if (st0.0 || opened) && !(opens_comment(l) || (st0.1 && closes_comment(l))) && !(st0.1
            || is_line_comment(l)) {
            let cur2 = (cur1.0, cur1.1.push(l));
            assert forall|j: int| 0 <= j < cur2.1.len() implies !is_line_comment(
                #[trigger] cur2.1[j],
            ) && !opens_comment(cur2.1[j]) by {
                if j < cur1.1.len() {
                    assert(cur2.1[j] == cur1.1[j]);
                }
            }
            let st = scan_upto(lines, marks, true, n);
            assert forall|i: int| 0 <= i < st.3.len() implies comment_free(#[trigger] st.3[i]) by {
                if i < st0.3.len() {
                    assert(st.3[i] == st0.3[i]);
                }
            }
        }
    }
}

/// With comments left out, no block holds a comment line, whatever the
/// marks.
pub proof fn law_blocks_hold_no_comment_lines(lines: Seq<Seq<char>>, marks: Seq<LineMarks>)
    requires
        lines.len() == marks.len(),
    ensures
        forall|i: int|
            0 <= i < scan_blocks(lines, marks, true).len() ==> comment_free(
                #[trigger] scan_blocks(lines, marks, true)[i],
            ),
{
    lemma_scan_comment_free(lines, marks, lines.len());
}

/// The values of a vector of blocks.
pub open spec fn block_views(v: Seq<CodeBlock>) -> Seq<BlockView> {
    v.map_values(|b: CodeBlock| (b.name@, string_views(b.lines@)))
}

fn opens_comment_exec(v: &Vec<char>) -> (r: bool)
    ensures
        r == opens_comment(v@),
{
    let j = leading_ws(v);
    v.len() - j >= 2 && v[j] == '/' && v[j + 1] == '*'
}

fn is_line_comment_exec(v: &Vec<char>) -> (r: bool)
    ensures
        r == is_line_comment(v@),
{
    let j = leading_ws(v);
    v.len() - j >= 2 && v[j] == '/' && v[j + 1] == '/'
}

/// The number of leading whitespace characters of `v`.
fn leading_ws(v: &Vec<char>) -> (r: usize)
    ensures
        r == lead_ws(v@),
        r <= v@.len(),
{
    let mut j: usize = 0;
    proof {
        assert(v@.subrange(0, v@.len() as int) =~= v@);
    }
    while j < v.len() && is_ws_char(v[j])
        invariant
            j <= v@.len(),
            lead_ws(v@) == j + lead_ws(v@.subrange(j as int, v@.len() as int)),
        decreases v@.len() - j,
    {
        proof {
            let a = v@.subrange(j as int, v@.len() as int);
            assert(a.drop_first() =~= v@.subrange(j + 1, v@.len() as int));
        }
        j = j + 1;
    }
    proof {
        let a = v@.subrange(j as int, v@.len() as int);
        if j < v@.len() {
            assert(a[0] == v@[j as int]);
        }
    }
    j
}

/// The number of trailing whitespace characters of `v`.
fn trailing_ws(v: &Vec<char>) -> (r: usize)
    ensures
        r == trail_ws(v@),
        r <= v@.len(),
{
    let mut j: usize = v.len();
    proof {
        assert(v@.subrange(0, v@.len() as int) =~= v@);
    }
    while j > 0 && is_ws_char(v[j - 1])
        invariant
            j <= v@.len(),
            trail_ws(v@) == (v@.len() - j) + trail_ws(v@.subrange(0, j as int)),
        decreases j,
    {
        proof {
            let a = v@.subrange(0, j as int);
            assert(a.drop_last() =~= v@.subrange(0, j - 1));
        }
        j = j - 1;
    }
    proof {
        let a = v@.subrange(0, j as int);
        if j > 0 {
            assert(a.last() == v@[j - 1]);
        }
    }
    v.len() - j
}

fn closes_comment_exec(v: &Vec<char>) -> (r: bool)
    ensures
        r == closes_comment(v@),
{
    let t = trailing_ws(v);
    let e = v.len() - t;
    e >= 2 && v[e - 2] == '*' && v[e - 1] == '/'
}

/// The blocks that the lines `lines`, with the marks `marks` that the
/// patterns found on them, hold (see `scan_blocks`).
pub fn scan_lines(lines: &Vec<String>, marks: &Vec<LineMarks>, exclude_comments: bool) -> (r: Vec<
    CodeBlock,
>)
    requires
        lines@.len() == marks@.len(),
        forall|i: int| 0 <= i < lines@.len() ==> marks_fit(lines@[i]@, #[trigger] marks@[i]),
    ensures
        block_views(r@) == scan_blocks(string_views(lines@), marks@, exclude_comments),
{
    let ghost ls = string_views(lines@);
    let mut in_block = false;
    let mut in_comment = false;
    let mut opened: u128 = 0;
    let mut closed: u128 = 0;
    let mut done: Vec<CodeBlock> = Vec::new();
    let mut cur_name = String::new();
    let mut cur_lines: Vec<String> = Vec::new();
    let n = lines.len();
    let mut i: usize = 0;
    while i < n
        invariant
            n == lines@.len(),
            n == marks@.len(),
            ls == string_views(lines@),
            i <= n,
            forall|k: int| 0 <= k < lines@.len() ==> marks_fit(lines@[k]@, #[trigger] marks@[k]),
            opened <= i * 0xFFFF_FFFF_FFFF_FFFFu128,
            closed <= i * 0xFFFF_FFFF_FFFF_FFFFu128,
            ({
                let st = scan_upto(ls, marks@, exclude_comments, i as nat);
                &&& st.0 == in_block
                &&& st.1 == in_comment
                &&& st.2 == opened - closed
                &&& st.3 == block_views(done@)
                &&& st.4 == (cur_name@, string_views(cur_lines@))
            }),
        decreases n - i,
    {
        let line = &lines[i];
        let m = marks[i];
        let v = chars_of(line.as_str());
        proof {
            assert(ls[i as int] == lines@[i as int]@);
            assert(0xFFFF_FFFF_FFFF_FFFFu128 * (i + 1) == 0xFFFF_FFFF_FFFF_FFFFu128 * i
                + 0xFFFF_FFFF_FFFF_FFFFu128) by (nonlinear_arith);
            assert(0xFFFF_FFFF_FFFF_FFFFu128 * (i + 1) <= 0xFFFF_FFFF_FFFF_FFFFu128
                * 0x1_0000_0000_0000_0000) by (nonlinear_arith)
                requires
                    i + 1 <= 0x1_0000_0000_0000_0000,
            ;
        }
        if !in_block {
            match m.head_end {
                Some(h) => {
                    cur_name = match m.open_start {
                        Some(e) => if h < e {
                            let (a, b) = trim_bounds(&v, h, e);
                            string_of(&copy_range(&v, a, b))
                        } else {
                            String::new()
                        },
                        None => String::new(),
                    };
                    cur_lines = Vec::new();
                    in_block = true;
                    proof {
                        assert(string_views(cur_lines@) =~= Seq::<Seq<char>>::empty());
                    }
                },
                None => {},
            }
        }
        if in_block {
            let skip = if exclude_comments {
                let beg = opens_comment_exec(&v);
                let end = closes_comment_exec(&v);
                if beg || (in_comment && end) {
                    in_comment = !end;
                    true
                } else {
                    in_comment || is_line_comment_exec(&v)
                }
            } else {
                false
            };
            if !skip {
                let lc = line.clone();
                proof {
                    assert(string_views(cur_lines@.push(lc)) =~= string_views(cur_lines@).push(
                        line@,
                    ));
                }
                cur_lines.push(lc);
                let before = closed;
                opened = opened + m.opens as u128;
                closed = closed + m.closes as u128;
                if m.closes > 0 && opened > before && opened <= closed {
                    closed = opened;
                    let ghost cv = (cur_name@, string_views(cur_lines@));
                    let b = CodeBlock { name: cur_name, lines: cur_lines };
                    proof {
                        assert(block_views(done@.push(b)) =~= block_views(done@).push(cv));
                    }
                    done.push(b);
                    cur_name = String::new();
                    cur_lines = Vec::new();
                    in_block = false;
                    proof {
                        assert(string_views(cur_lines@) =~= Seq::<Seq<char>>::empty());
                    }
                }
            }
        }
        i = i + 1;
    }
    proof {
        assert(ls.len() == n);
    }
    done
}

/// The number of occurrences of `c` in `l`.
pub open spec fn count_char(l: Seq<char>, c: char) -> nat
    decreases l.len(),
{
    if l.len() == 0 {
        0
    } else {
        count_char(l.drop_last(), c) + if l.last() == c {
            1nat
        } else {
            0nat
        }
    }
}

/// The first position of `c` in `l` at `i` or later.
pub open spec fn first_index_from(l: Seq<char>, c: char, i: int) -> Option<int>
    decreases l.len() - i,
{
    if i < 0 || i >= l.len() {
        None
    } else if l[i] == c {
        Some(i)
    } else {
        first_index_from(l, c, i + 1)
    }
}

/// The text of an optional pattern.
pub open spec fn pattern_text(p: Option<Pattern>) -> Option<Seq<char>> {
    match p {
        Some(x) => Some(x@),
        None => None,
    }
}

/// What the patterns find on line `l`: the end of the head pattern's
/// leftmost match; the start of the open marker's leftmost match and the
/// number of open and of close markers. Without a marker pattern the
/// markers are `{` and `}`.
pub open spec fn marks_for(
    l: Seq<char>,
    head: Seq<char>,
    left: Option<Seq<char>>,
    right: Option<Seq<char>>,
) -> LineMarks {
    LineMarks {
        head_end: match regex_find(head, l) {
            Some(b) => Some(b.1 as usize),
            None => None,
        },
        open_start: match left {
            Some(p) => match regex_find(p, l) {
                Some(b) => Some(b.0 as usize),
                None => None,
            },
            None => match first_index_from(l, '{', 0) {
                Some(o) => Some(o as usize),
                None => None,
            },
        },
        opens: match left {
            Some(p) => regex_count(p, l) as usize,
            None => count_char(l, '{') as usize,
        },
        closes: match right {
            Some(p) => regex_count(p, l) as usize,
            None => count_char(l, '}') as usize,
        },
    }
}

/// The blocks of the source text `src` with head pattern `head`, marker
/// patterns `left` and `right`, comment lines left out if `exclude`.
pub open spec fn found_blocks(
    src: Seq<char>,
    head: Seq<char>,
    left: Option<Seq<char>>,
    right: Option<Seq<char>>,
    exclude: bool,
) -> Seq<BlockView> {
    let ls = lines_of(src);
    scan_blocks(ls, ls.map_values(|l: Seq<char>| marks_for(l, head, left, right)), exclude)
}

fn count_char_exec(v: &Vec<char>, c: char) -> (r: usize)
    ensures
        r == count_char(v@, c),
{
    let mut n: usize = 0;
    let mut i: usize = 0;
    while i < v.len()
        invariant
            i <= v@.len(),
            n <= i,
            n == count_char(v@.subrange(0, i as int), c),
        decreases v@.len() - i,
    {
        proof {
            assert(v@.subrange(0, i + 1).drop_last() =~= v@.subrange(0, i as int));
        }
        if v[i] == c {
            n = n + 1;
        }
        i = i + 1;
    }
    proof {
        assert(v@.subrange(0, i as int) =~= v@);
    }
    n
}

fn first_index_exec(v: &Vec<char>, c: char) -> (r: Option<usize>)
    ensures
        match r {
            Some(o) => first_index_from(v@, c, 0) == Some(o as int) && o <= v@.len(),
            None => first_index_from(v@, c, 0) is None,
        },
{
    let mut i: usize = 0;
    while i < v.len()
        invariant
            i <= v@.len(),
            first_index_from(v@, c, 0) == first_index_from(v@, c, i as int),
        decreases v@.len() - i,
    {
        if v[i] == c {
            return Some(i);
        }
        i = i + 1;
    }
    None
}

/// Where the leftmost match of `p` in `s` starts and ends, in characters.
fn match_bounds(p: &Pattern, s: &String) -> (r: Option<(usize, usize)>)
    ensures
        r is Some <==> regex_find(p@, s@) is Some,
        r matches Some(x) ==> x.0 <= x.1 <= s@.len() && regex_find(p@, s@) == Some(
            (x.0 as nat, x.1 as nat),
        ),
{
    match find_first(p, s.as_str()) {
        Some((before, matched)) => {
            let n = s.as_str().unicode_len();
            let a = before.as_str().unicode_len();
            let b = matched.as_str().unicode_len();
            assert(a + b <= n);
            Some((a, a + b))
        },
        None => None,
    }
}

/// The marks of one line `s` (with characters `v`).
fn line_marks(
    s: &String,
    v: &Vec<char>,
    re_head: &Pattern,
    re_edge_left: &Option<Pattern>,
    re_edge_right: &Option<Pattern>,
) -> (r: LineMarks)
    requires
        s@ == v@,
    ensures
        marks_fit(v@, r),
        r == marks_for(v@, re_head@, pattern_text(*re_edge_left), pattern_text(*re_edge_right)),
{
    let head_end = match match_bounds(re_head, s) {
        Some((_, e)) => Some(e),
        None => None,
    };
    let (opens, open_start) = match re_edge_left {
        Some(re) => (
            count_matches(re, s.as_str()),
            match match_bounds(re, s) {
                Some((a, _)) => Some(a),
                None => None,
            },
        ),
        None => (count_char_exec(v, '{'), first_index_exec(v, '{')),
    };
    let closes = match re_edge_right {
        Some(re) => count_matches(re, s.as_str()),
        None => count_char_exec(v, '}'),
    };
    LineMarks { head_end, open_start, opens, closes }
}

/// Whether comment lines are left out: yes unless told otherwise.
pub open spec fn excludes_comments(flag: Option<bool>) -> bool {
    match flag {
        Some(b) => b,
        None => true,
    }
}

/// The declaration blocks of `source_str` whose head line `re_head`
/// matches. Open and close markers are `re_edge_left` and `re_edge_right`,
/// by default `{` and `}`; comment lines are left out unless
/// `is_exclude_comment` is `Some(false)`.
pub fn search_blocks_from_source(
    source_str: &str,
    re_head: Pattern,
    re_edge_left: Option<Pattern>,
    re_edge_right: Option<Pattern>,
    is_exclude_comment: Option<bool>,
) -> (r: Vec<CodeBlock>)
    ensures
        block_views(r@) == found_blocks(
            source_str@,
            re_head@,
            pattern_text(re_edge_left),
            pattern_text(re_edge_right),
            excludes_comments(is_exclude_comment),
        ),
{
    let ghost head = re_head@;
    let ghost left = pattern_text(re_edge_left);
    let ghost right = pattern_text(re_edge_right);
    let exclude = match is_exclude_comment {
        Some(b) => b,
        None => true,
    };
    let v = chars_of(source_str);
    let lvs = split_lines(&v);
    let ghost ls = lines_of(source_str@);
    let mut lines: Vec<String> = Vec::new();
    let mut marks: Vec<LineMarks> = Vec::new();
    let mut i: usize = 0;
    while i < lvs.len()
        invariant
            views(lvs@) == ls,
            head == re_head@,
            left == pattern_text(re_edge_left),
            right == pattern_text(re_edge_right),
            i <= lvs@.len(),
            lines@.len() == i,
            marks@.len() == i,
            forall|k: int| 0 <= k < i ==> (#[trigger] lines@[k])@ == ls[k],
            forall|k: int|
                0 <= k < i ==> marks_fit(ls[k], #[trigger] marks@[k]) && marks@[k] == marks_for(
                    ls[k],
                    head,
                    left,
                    right,
                ),
        decreases lvs@.len() - i,
    {
        let lv = &lvs[i];
        let s = string_of(lv);
        assert(ls[i as int] == lv@);
        let m = line_marks(&s, lv, &re_head, &re_edge_left, &re_edge_right);
        lines.push(s);
        marks.push(m);
        i = i + 1;
    }
    proof {
        assert(string_views(lines@) =~= ls);
        assert(marks@ =~= ls.map_values(|l: Seq<char>| marks_for(l, head, left, right)));
    }
    scan_lines(&lines, &marks, exclude)
}

} // verus!
