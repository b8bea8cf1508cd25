//! Grammar source as text: the growth/finalization split, and the canonical
//! reassembly of source text around a (possibly mutated) compiled grammar.
use vstd::prelude::*;
use vstd::string::*;
use crate::text::{
    find, has_infix, is_first_occurrence, kind_of, line_kind, lines_of, split_lines, trim, trim_back,
    trim_end, trim_front, trim_start, trimmed, views, LineKind,
};

verus! {

/// The line that separates growth code from finalization code.
pub const DECOMPOSITION_SEPARATOR: &'static str = "/// DECOMPOSITION ///";

pub open spec fn separator() -> Seq<char> {
    DECOMPOSITION_SEPARATOR@
}

/// Splits combined source into (growth, finalization) at the first separator;
/// without a separator the whole text is growth code.
pub fn split_source_code(full: &str) -> (r: (String, String))
    ensures
        !has_infix(full@, separator()) ==> r.0@ == full@ && r.1@ == Seq::<char>::empty(),
        has_infix(full@, separator()) ==> exists|k: int|
            is_first_occurrence(full@, separator(), k) && r.0@ == trim_back(full@.subrange(0, k))
                && r.1@ == trim_front(full@.subrange(k + separator().len(), full@.len() as int)),
{
    match find(full, DECOMPOSITION_SEPARATOR) {
        Some(k) => {
            let n = full.unicode_len();
            let m = DECOMPOSITION_SEPARATOR.unicode_len();
            let growth = trim_end(full.substring_char(0, k));
            let finalization = trim_start(full.substring_char(k + m, n));
            (growth, finalization)
        },
        None => (String::from_str(full), String::new()),
    }
}

pub open spec fn joined_source(growth: Seq<char>, finalization: Seq<char>) -> Seq<char> {
    if trimmed(finalization).len() == 0 {
        growth
    } else {
        trim_back(growth) + seq!['\n'] + separator() + seq!['\n'] + trim_front(finalization)
    }
}

/// Joins growth and finalization code; the separator is written only when
/// there is finalization code.
pub fn join_source_code(growth: &str, finalization: &str) -> (r: String)
    ensures
        r@ == joined_source(growth@, finalization@),
{
    let t = trim(finalization);
    if t.as_str().unicode_len() == 0 {
        String::from_str(growth)
    } else {
        let mut r = trim_end(growth);
        r.append("\n");
        r.append(DECOMPOSITION_SEPARATOR);
        r.append("\n");
        let f = trim_start(finalization);
        r.append(f.as_str());
        proof {
            reveal_strlit("\n");
        }
        assert(r@ =~= joined_source(growth@, finalization@));
        r
    }
}

/// Whether some line is a rule line.
pub open spec fn rule_seen(ls: Seq<Seq<char>>) -> bool {
    exists|j: int| 0 <= j < ls.len() && kind_of(ls[j]) == LineKind::Rule
}

/// Whether a line is carried into the preamble of reconstructed source:
/// blank, comment and unclassified lines until the first rule, and every
/// directive other than `#define`.
pub open spec fn kept_in_preamble(line: Seq<char>, after_rules: bool) -> bool {
    match kind_of(line) {
        LineKind::Blank | LineKind::Comment | LineKind::Other => !after_rules,
        LineKind::Directive => true,
        _ => false,
    }
}

pub open spec fn preamble(ls: Seq<Seq<char>>) -> Seq<Seq<char>>
    decreases ls.len(),
{
    if ls.len() == 0 {
        Seq::empty()
    } else if kept_in_preamble(ls.last(), rule_seen(ls.drop_last())) {
        preamble(ls.drop_last()).push(ls.last())
    } else {
        preamble(ls.drop_last())
    }
}

/// The last omega line, as written.
pub open spec fn axiom_line(ls: Seq<Seq<char>>) -> Option<Seq<char>>
    decreases ls.len(),
{
    if ls.len() == 0 {
        None
    } else if kind_of(ls.last()) == LineKind::Axiom {
        Some(ls.last())
    } else {
        axiom_line(ls.drop_last())
    }
}

pub open spec fn define_line(name: Seq<char>, value: Seq<char>) -> Seq<char> {
    "#define "@ + name + " "@ + value
}

pub open spec fn define_lines(d: Seq<(Seq<char>, Seq<char>)>) -> Seq<Seq<char>> {
    d.map_values(|p: (Seq<char>, Seq<char>)| define_line(p.0, p.1))
}

pub open spec fn option_line(o: Option<Seq<char>>) -> Seq<Seq<char>> {
    match o {
        Some(l) => seq![l],
        None => Seq::empty(),
    }
}

/// The lines of reconstructed source, in their fixed order: preamble,
/// constant definitions, `omega:` line, rules.
pub open spec fn rebuilt_lines(
    ls: Seq<Seq<char>>,
    d: Seq<(Seq<char>, Seq<char>)>,
    rules: Seq<Seq<char>>,
) -> Seq<Seq<char>> {
    preamble(ls) + define_lines(d) + option_line(axiom_line(ls)) + rules
}

/// Lines joined by newline characters.
pub open spec fn join_lines(ls: Seq<Seq<char>>) -> Seq<char>
    decreases ls.len(),
{
    if ls.len() == 0 {
        Seq::empty()
    } else if ls.len() == 1 {
        ls[0]
    } else {
        join_lines(ls.drop_last()) + seq!['\n'] + ls.last()
    }
}

pub open spec fn pair_views(v: Seq<(String, String)>) -> Seq<(Seq<char>, Seq<char>)> {
    v.map_values(|p: (String, String)| (p.0@, p.1@))
}

/// Joins lines with newline characters.
pub fn join_with_newlines(ls: &Vec<String>) -> (r: String)
    ensures
        r@ == join_lines(views(ls@)),
{
    let mut r = String::new();
    let mut i: usize = 0;
    proof {
        reveal_strlit("\n");
    }
    while i < ls.len()
        invariant
            i <= ls@.len(),
            r@ == join_lines(views(ls@).take(i as int)),
        decreases ls@.len() - i,
    {
        let ghost prev = r@;
        assert(views(ls@).take(i + 1).drop_last() =~= views(ls@).take(i as int));
        assert(views(ls@).take(i + 1).last() == ls@[i as int]@);
        proof {
            reveal_strlit("\n");
        }
        assert("\n"@ =~= seq!['\n']);
        if i > 0 {
            r.append("\n");
            r.append(ls[i].as_str());
            assert(r@ =~= prev + seq!['\n'] + ls@[i as int]@);
        } else {
            r.append(ls[i].as_str());
            assert(r@ =~= ls@[i as int]@);
        }
        i = i + 1;
    }
    assert(views(ls@).take(ls@.len() as int) =~= views(ls@));
    r
}

/// Builds reconstructed source text from the original text, the constant
/// definitions `(name, value)` in the order given, and the rule lines.
pub fn rebuild_source(original: &str, defines: &Vec<(String, String)>, rules: &Vec<String>) -> (r: String)
    ensures
        r@ == join_lines(rebuilt_lines(lines_of(original@), pair_views(defines@), views(rules@))),
{
    let ls = split_lines(original);
    let ghost gls = views(ls@);
    let mut out: Vec<String> = Vec::new();
    let mut omega: Option<String> = None;
    let mut seen_rules = false;
    let mut i: usize = 0;
    while i < ls.len()
        invariant
            i <= ls@.len(),
            gls == views(ls@),
            views(out@) == preamble(gls.take(i as int)),
            seen_rules == rule_seen(gls.take(i as int)),
            match omega {
                Some(o) => axiom_line(gls.take(i as int)) == Some(o@),
                None => axiom_line(gls.take(i as int)) is None,
            },
        decreases ls@.len() - i,
    {
        let line = &ls[i];
        let kind = line_kind(line.as_str());
        let ghost prev = gls.take(i as int);
        assert(gls.take(i + 1).drop_last() =~= prev);
        assert(gls.take(i + 1).last() == line@);
        let ghost before = out@;
        if kind == LineKind::Axiom {
            omega = Some(line.clone());
        } else if kind == LineKind::Directive || ((kind == LineKind::Blank || kind == LineKind::Comment
            || kind == LineKind::Other) && !seen_rules) {
            out.push(line.clone());
            assert(views(out@) =~= views(before).push(line@));
        }
        if kind == LineKind::Rule {
            seen_rules = true;
        }
        assert(rule_seen(gls.take(i + 1)) == (rule_seen(prev) || kind == LineKind::Rule)) by {
            if kind == LineKind::Rule {
                assert(kind_of(gls.take(i + 1)[i as int]) == LineKind::Rule);
            }
            if rule_seen(gls.take(i + 1)) && kind != LineKind::Rule {
                let j = choose|j: int| 0 <= j < i + 1 && #[trigger] kind_of(gls.take(i + 1)[j]) == LineKind::Rule;
                assert(prev[j] == gls.take(i + 1)[j]);
            }
        }
        i = i + 1;
    }
    assert(gls.take(ls@.len() as int) =~= gls);
    let ghost pre = out@;
    let mut k: usize = 0;
    while k < defines.len()
        invariant
            k <= defines@.len(),
            views(out@) == views(pre) + define_lines(pair_views(defines@)).take(k as int),
        decreases defines@.len() - k,
    {
        let mut line = String::from_str("#define ");
        line.append(defines[k].0.as_str());
        line.append(" ");
        line.append(defines[k].1.as_str());
        proof {
            reveal_strlit("#define ");
            reveal_strlit(" ");
        }
        let ghost before = out@;
        out.push(line);
        assert(views(out@) =~= views(before).push(line@));
        assert(define_lines(pair_views(defines@)).take(k + 1) =~= define_lines(
            pair_views(defines@),
        ).take(k as int).push(line@));
        k = k + 1;
    }
    assert(define_lines(pair_views(defines@)).take(defines@.len() as int) =~= define_lines(
        pair_views(defines@),
    ));
    match omega {
        Some(o) => {
            let ghost before = out@;
            out.push(o);
            assert(views(out@) =~= views(before).push(o@));
        },
        None => {},
    }
    let ghost mid = out@;
    let mut j: usize = 0;
    while j < rules.len()
        invariant
            j <= rules@.len(),
            views(out@) == views(mid) + views(rules@).take(j as int),
        decreases rules@.len() - j,
    {
        let ghost before = out@;
        out.push(rules[j].clone());
        assert(views(out@) =~= views(before).push(rules@[j as int]@));
        assert(views(rules@).take(j + 1) =~= views(rules@).take(j as int).push(rules@[j as int]@));
        j = j + 1;
    }
    assert(views(rules@).take(rules@.len() as int) =~= views(rules@));
    assert(views(out@) =~= rebuilt_lines(gls, pair_views(defines@), views(rules@)));
    join_with_newlines(&out)
}

} // verus!
