//! Line-oriented text primitives for grammar source: trimming, prefix and
//! infix tests, line splitting and the classification of a source line.
use vstd::prelude::*;
use vstd::string::*;

verus! {

/// Whitespace that trimming removes: the Unicode `White_Space` characters.
pub open spec fn is_space(c: char) -> bool {
    let u = c as u32;
    (0x09 <= u && u <= 0x0D) || u == 0x20 || u == 0x85 || u == 0xA0 || u == 0x1680 || (0x2000 <= u
        && u <= 0x200A) || u == 0x2028 || u == 0x2029 || u == 0x202F || u == 0x205F || u == 0x3000
}

pub open spec fn trim_front(s: Seq<char>) -> Seq<char>
    decreases s.len(),
{
    if s.len() > 0 && is_space(s[0]) {
        trim_front(s.drop_first())
    } else {
        s
    }
}

pub open spec fn trim_back(s: Seq<char>) -> Seq<char>
    decreases s.len(),
{
    if s.len() > 0 && is_space(s.last()) {
        trim_back(s.drop_last())
    } else {
        s
    }
}

/// The text with leading and trailing whitespace removed.
pub open spec fn trimmed(s: Seq<char>) -> Seq<char> {
    trim_back(trim_front(s))
}

pub open spec fn has_prefix(s: Seq<char>, p: Seq<char>) -> bool {
    p.len() <= s.len() && s.subrange(0, p.len() as int) == p
}

pub open spec fn occurs_at(s: Seq<char>, p: Seq<char>, k: int) -> bool {
    0 <= k && k + p.len() <= s.len() && s.subrange(k, k + p.len()) == p
}

pub open spec fn has_infix(s: Seq<char>, p: Seq<char>) -> bool {
    exists|k: int| occurs_at(s, p, k)
}

/// What a line of grammar source is, judged on its trimmed text.
#[derive(PartialEq, Eq, Structural, Clone, Copy, Debug)]
pub enum LineKind {
    Blank,
    Comment,
    Axiom,
    Define,
    Directive,
    Rule,
    Other,
}

pub open spec fn kind_of_trimmed(t: Seq<char>) -> LineKind {
    if t.len() == 0 {
        LineKind::Blank
    } else if has_prefix(t, "//"@) {
        LineKind::Comment
    } else if has_prefix(t, "omega:"@) {
        LineKind::Axiom
    } else if has_prefix(t, "#define"@) {
        LineKind::Define
    } else if has_prefix(t, "#"@) {
        LineKind::Directive
    } else if has_infix(t, "->"@) {
        LineKind::Rule
    } else {
        LineKind::Other
    }
}

pub open spec fn kind_of(line: Seq<char>) -> LineKind {
    kind_of_trimmed(trimmed(line))
}

/// The pieces between newline characters; there is always one more piece
/// than there are newlines.
pub open spec fn pieces(s: Seq<char>) -> Seq<Seq<char>>
    decreases s.len(),
{
    if s.len() == 0 {
        seq![Seq::<char>::empty()]
    } else if s.last() == '\n' {
        pieces(s.drop_last()).push(Seq::<char>::empty())
    } else {
        let p = pieces(s.drop_last());
        p.update(p.len() - 1, p.last().push(s.last()))
    }
}

/// The lines of a text: its pieces, without the empty piece after a final
/// newline (so an empty text has no lines).
pub open spec fn lines_of(s: Seq<char>) -> Seq<Seq<char>> {
    let p = pieces(s);
    if p.last().len() == 0 {
        p.drop_last()
    } else {
        p
    }
}

pub open spec fn views(v: Seq<String>) -> Seq<Seq<char>> {
    v.map_values(|x: String| x@)
}

pub fn is_space_char(c: char) -> (r: bool)
    ensures
        r == is_space(c),
{
    let u = c as u32;
    (0x09 <= u && u <= 0x0D) || u == 0x20 || u == 0x85 || u == 0xA0 || u == 0x1680 || (0x2000 <= u
        && u <= 0x200A) || u == 0x2028 || u == 0x2029 || u == 0x202F || u == 0x205F || u == 0x3000
}

/// The text without leading whitespace.
pub fn trim_start(s: &str) -> (r: String)
    ensures
        r@ == trim_front(s@),
{
    let n = s.unicode_len();
    let mut i: usize = 0;
    assert(s@.subrange(0, n as int) =~= s@);
    while i < n && is_space_char(s.get_char(i))
        invariant
            n == s@.len(),
            i <= n,
            trim_front(s@) == trim_front(s@.subrange(i as int, n as int)),
        decreases n - i,
    {
        assert(s@.subrange(i as int, n as int).drop_first() =~= s@.subrange(i + 1, n as int));
        i = i + 1;
    }
    String::from_str(s.substring_char(i, n))
}

/// The text without trailing whitespace.
pub fn trim_end(s: &str) -> (r: String)
    ensures
        r@ == trim_back(s@),
{
    let n = s.unicode_len();
    let mut j: usize = n;
    assert(s@.subrange(0, n as int) =~= s@);
    while j > 0 && is_space_char(s.get_char(j - 1))
        invariant
            n == s@.len(),
            j <= n,
            trim_back(s@) == trim_back(s@.subrange(0, j as int)),
        decreases j,
    {
        assert(s@.subrange(0, j as int).drop_last() =~= s@.subrange(0, j - 1));
        j = j - 1;
    }
    String::from_str(s.substring_char(0, j))
}

/// The text without leading and trailing whitespace.
pub fn trim(s: &str) -> (r: String)
    ensures
        r@ == trimmed(s@),
{
    let front = trim_start(s);
    trim_end(front.as_str())
}

/// Whether `s` begins with `p`.
pub fn starts_with(s: &str, p: &str) -> (r: bool)
    ensures
        r == has_prefix(s@, p@),
{
    let n = s.unicode_len();
    let m = p.unicode_len();
    if m > n {
        return false;
    }
    let mut i: usize = 0;
    while i < m
        invariant
            n == s@.len(),
            m == p@.len(),
            m <= n,
            i <= m,
            s@.subrange(0, i as int) == p@.subrange(0, i as int),
        decreases m - i,
    {
        if s.get_char(i) != p.get_char(i) {
            assert(s@.subrange(0, m as int)[i as int] != p@[i as int]);
            return false;
        }
        assert(s@.subrange(0, i + 1) =~= s@.subrange(0, i as int).push(s@[i as int]));
        assert(p@.subrange(0, i + 1) =~= p@.subrange(0, i as int).push(p@[i as int]));
        i = i + 1;
    }
    assert(p@.subrange(0, m as int) =~= p@);
    true
}

fn occurs_at_exec(s: &str, p: &str, k: usize) -> (r: bool)
    requires
        k + p@.len() <= s@.len(),
    ensures
        r == occurs_at(s@, p@, k as int),
{
    let n = s.unicode_len();
    let m = p.unicode_len();
    let mut i: usize = 0;
    while i < m
        invariant
            n == s@.len(),
            m == p@.len(),
            k + m <= s@.len(),
            i <= m,
            s@.subrange(k as int, k + i) == p@.subrange(0, i as int),
        decreases m - i,
    {
        if s.get_char(k + i) != p.get_char(i) {
            assert(s@.subrange(k as int, k + m)[i as int] != p@[i as int]);
            return false;
        }
        assert(s@.subrange(k as int, k + i + 1) =~= s@.subrange(k as int, k + i).push(
            s@[k + i],
        ));
        assert(p@.subrange(0, i + 1) =~= p@.subrange(0, i as int).push(p@[i as int]));
        i = i + 1;
    }
    assert(p@.subrange(0, m as int) =~= p@);
    true
}

pub open spec fn is_first_occurrence(s: Seq<char>, p: Seq<char>, k: int) -> bool {
    occurs_at(s, p, k) && forall|j: int| 0 <= j < k ==> !occurs_at(s, p, j)
}

/// The position of the first occurrence of `p` in `s`, if any.
pub fn find(s: &str, p: &str) -> (r: Option<usize>)
    ensures
        r is None <==> !has_infix(s@, p@),
        r matches Some(k) ==> is_first_occurrence(s@, p@, k as int),
{
    let n = s.unicode_len();
    let m = p.unicode_len();
    if m > n {
        return None;
    }
    let mut k: usize = 0;
    loop
        invariant
            n == s@.len(),
            m == p@.len(),
            m <= n,
            k <= n - m,
            forall|j: int| 0 <= j < k ==> !occurs_at(s@, p@, j),
        decreases n - m - k,
    {
        if occurs_at_exec(s, p, k) {
            return Some(k);
        }
        if k == n - m {
            return None;
        }
        k = k + 1;
    }
}

/// Whether `p` occurs anywhere in `s`.
pub fn contains(s: &str, p: &str) -> (r: bool)
    ensures
        r == has_infix(s@, p@),
{
    find(s, p).is_some()
}

/// The kind of a line of grammar source.
pub fn line_kind(line: &str) -> (r: LineKind)
    ensures
        r == kind_of(line@),
{
    let t = trim(line);
    let t = t.as_str();
    if t.unicode_len() == 0 {
        LineKind::Blank
    } else if starts_with(t, "//") {
        LineKind::Comment
    } else if starts_with(t, "omega:") {
        LineKind::Axiom
    } else if starts_with(t, "#define") {
        LineKind::Define
    } else if starts_with(t, "#") {
        LineKind::Directive
    } else if contains(t, "->") {
        LineKind::Rule
    } else {
        LineKind::Other
    }
}

/// The lines of a text, split on newlines.
pub fn split_lines(s: &str) -> (r: Vec<String>)
    ensures
        views(r@) == lines_of(s@),
{
    let n = s.unicode_len();
    let mut out: Vec<String> = Vec::new();
    let mut start: usize = 0;
    let mut i: usize = 0;
    assert(s@.subrange(0, 0) =~= Seq::<char>::empty());
    assert(views(out@) =~= Seq::<Seq<char>>::empty());
    while i < n
        invariant
            n == s@.len(),
            start <= i <= n,
            pieces(s@.subrange(0, i as int)) == views(out@).push(s@.subrange(start as int, i as int)),
        decreases n - i,
    {
        let c = s.get_char(i);
        let ghost pre = s@.subrange(0, i as int);
        assert(s@.subrange(0, i + 1).drop_last() =~= pre);
        if c == '\n' {
            let line = String::from_str(s.substring_char(start, i));
            let ghost before = out@;
            out.push(line);
            assert(views(out@) =~= views(before).push(line@));
            i = i + 1;
            start = i;
            assert(s@.subrange(start as int, i as int) =~= Seq::<char>::empty());
        } else {
            assert(s@.subrange(start as int, i + 1) =~= s@.subrange(start as int, i as int).push(c));
            i = i + 1;
        }
    }
    assert(s@.subrange(0, n as int) =~= s@);
    let last = String::from_str(s.substring_char(start, n));
    if last.as_str().unicode_len() > 0 {
        out.push(last);
    }
    assert(views(out@) =~= lines_of(s@));
    out
}

proof fn lemma_trim_front_shape(s: Seq<char>)
    ensures
        trim_front(s).len() == 0 || !is_space(trim_front(s)[0]),
    decreases s.len(),
{
    if s.len() > 0 && is_space(s[0]) {
        lemma_trim_front_shape(s.drop_first());
    }
}

proof fn lemma_trim_back_shape(s: Seq<char>)
    ensures
        trim_back(s).len() <= s.len(),
        trim_back(s) == s.subrange(0, trim_back(s).len() as int),
        trim_back(s).len() == 0 || !is_space(trim_back(s).last()),
    decreases s.len(),
{
    if s.len() > 0 && is_space(s.last()) {
        lemma_trim_back_shape(s.drop_last());
        assert(s.drop_last().subrange(0, trim_back(s).len() as int) =~= s.subrange(0, trim_back(s).len() as int));
    } else {
        assert(s.subrange(0, s.len() as int) =~= s);
    }
}

/// Trimming trimmed text changes nothing, so a trimmed line has the kind of
/// the line it came from.
pub proof fn lemma_trimmed_idempotent(s: Seq<char>)
    ensures
        trimmed(trimmed(s)) == trimmed(s),
        kind_of(trimmed(s)) == kind_of(s),
{
    let f = trim_front(s);
    let u = trim_back(f);
    lemma_trim_front_shape(s);
    lemma_trim_back_shape(f);
    if u.len() > 0 {
        assert(u[0] == f[0]);
        assert(trim_front(u) == u);
    } else {
        assert(trim_front(u) == u);
    }
    assert(trim_back(u) == u);
}

} // verus!
