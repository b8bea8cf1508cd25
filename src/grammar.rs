//! The compiled form of grammar source, held in a `symbios::System`: parsing
//! source text into it, and reconstructing source text from it.
use vstd::prelude::*;
use vstd::string::*;
use vstd::multiset::Multiset;
use crate::codec::{
    axiom_line, join_lines, pair_views, rebuild_source, rebuilt_lines,
};
use crate::text::{lemma_trimmed_idempotent, kind_of, line_kind, lines_of, split_lines, trim, trimmed, views, LineKind};
use symbios::System;

verus! {

#[verifier::external_type_specification]
#[verifier::external_body]
pub struct ExSystem(System);

/// Whether a start string is accepted by a fresh grammar that was fed the
/// lines `fed` before it: trimmed source lines, in order, each given to the
/// call its kind selects (`omega:` lines to `set_axiom`, `#define` lines to
/// `add_directive`, rule lines to `add_rule`).
pub uninterp spec fn start_accepted(fed: Seq<Seq<char>>, line: Seq<char>) -> bool;

/// Whether a rule line is accepted by a fresh grammar that was fed the lines
/// `fed` before it.
pub uninterp spec fn rule_accepted(fed: Seq<Seq<char>>, line: Seq<char>) -> bool;

/// The start string of a trimmed `omega:` line.
pub open spec fn start_text(line: Seq<char>) -> Seq<char> {
    trimmed(line.subrange(6, line.len() as int))
}

/// A grammar under compilation: a fresh `System` that has been fed exactly
/// the recorded lines, in order, each through the call its kind selects.
/// Only the feeding functions below change it, and each takes only lines of
/// its own kind.
pub struct Compiler {
    system: System,
    fed: Vec<String>,
}

impl Compiler {
    /// The lines fed so far.
    pub closed spec fn history(&self) -> Seq<Seq<char>> {
        views(self.fed@)
    }
}

/// Relies on `System::new`: a fresh grammar, fed nothing.
#[verifier::external_body]
fn fresh_compiler() -> (r: Compiler)
    ensures
        r.history() == Seq::<Seq<char>>::empty(),
{
    Compiler { system: System::new(), fed: Vec::new() }
}

/// Relies on `System::set_axiom`: whether the start string of an `omega:`
/// line is accepted; symbios's answer depends on the lines fed before and
/// on this one alone.
#[verifier::external_body]
fn feed_start(c: &mut Compiler, line: &str, start: &str) -> (r: bool)
    requires
        kind_of(line@) == LineKind::Axiom,
        start@ == start_text(line@),
    ensures
        r == start_accepted(old(c).history(), line@),
        final(c).history() == old(c).history().push(line@),
{
    let ok = c.system.set_axiom(start).is_ok();
    c.fed.push(line.to_string());
    ok
}

/// Relies on `System::add_rule`: whether the rule line is accepted; the
/// answer depends on the lines fed before and on this one alone.
#[verifier::external_body]
fn feed_rule(c: &mut Compiler, line: &str) -> (r: bool)
    requires
        kind_of(line@) == LineKind::Rule,
    ensures
        r == rule_accepted(old(c).history(), line@),
        final(c).history() == old(c).history().push(line@),
{
    let ok = c.system.add_rule(line).is_ok();
    c.fed.push(line.to_string());
    ok
}

/// Relies on `System::add_directive`: feeds a `#define` line, whose value
/// symbios evaluates as an expression over the constants defined before it
/// (a definition symbios refuses leaves the grammar as it was).
#[verifier::external_body]
fn feed_directive(c: &mut Compiler, line: &str)
    requires
        kind_of(line@) == LineKind::Define,
    ensures
        final(c).history() == old(c).history().push(line@),
{
    let _ = c.system.add_directive(line);
    c.fed.push(line.to_string());
}

/// The source text of each rule of a compiled grammar.
pub uninterp spec fn rule_texts(system: System) -> Multiset<Seq<char>>;

/// Each named constant of a compiled grammar with its value written out.
pub uninterp spec fn constant_table(system: System) -> Map<Seq<char>, Seq<char>>;

/// The rule texts a fresh grammar exports after being fed `fed`.
pub uninterp spec fn compiled_rules(fed: Seq<Seq<char>>) -> Multiset<Seq<char>>;

/// The constant table of a fresh grammar after being fed `fed`.
pub uninterp spec fn compiled_constants(fed: Seq<Seq<char>>) -> Map<Seq<char>, Seq<char>>;

/// Relies on symbios building a grammar the same way from the same calls:
/// the rules `System::export_rules` writes (as a multiset, whatever order its
/// rule map is walked in) and the constants with their written values depend
/// on the lines fed alone.
#[verifier::external_body]
fn finish_compiler(c: Compiler) -> (s: System)
    ensures
        rule_texts(s) == compiled_rules(c.history()),
        constant_table(s) == compiled_constants(c.history()),
{
    c.system
}

/// Relies on `System::export_rules`: the source text of each compiled rule
/// (in the order its rule map is walked).
#[verifier::external_body]
fn system_rule_texts(system: &System) -> (r: Vec<String>)
    ensures
        views(r@).to_multiset() == rule_texts(*system),
{
    system.export_rules().into_iter().map(|(_, text)| text).collect()
}

/// Relies on the `System::constants` map: each named constant with its value
/// written out; a map holds each name once.
#[verifier::external_body]
fn system_constant_texts(system: &System) -> (r: Vec<(String, String)>)
    ensures
        forall|i: int, j: int|
            0 <= i < j < r@.len() ==> #[trigger] r@[i].0@ != #[trigger] r@[j].0@,
        table_listed(pair_views(r@), constant_table(*system)),
{
    system.constants.iter().map(|(name, value)| (name.clone(), value.to_string())).collect()
}

/// `d` lists the entries of table `m`: every pair is an entry, and every
/// name of `m` is listed.
pub open spec fn table_listed(d: Seq<(Seq<char>, Seq<char>)>, m: Map<Seq<char>, Seq<char>>) -> bool {
    &&& forall|i: int| 0 <= i < d.len() ==> m.contains_key(#[trigger] d[i].0) && m[d[i].0] == d[i].1
    &&& forall|k: Seq<char>| #[trigger] m.contains_key(k) ==> exists|i: int| 0 <= i < d.len() && d[i].0 == k
}

/// `text` is `original` rebuilt around `system`: its preamble, the
/// grammar's constants, one line each, sorted by name, its omega line, the grammar's rules.
pub open spec fn rebuilt_from(system: System, original: Seq<char>, text: Seq<char>) -> bool {
    exists|d: Seq<(Seq<char>, Seq<char>)>, rules: Seq<Seq<char>>|
        names_sorted(d) && names_distinct(d) && table_listed(d, constant_table(system)) && rules.to_multiset() == rule_texts(system)
            && text == join_lines(#[trigger] rebuilt_lines(lines_of(original), d, rules))
}

/// The outcome of feeding the lines `ls` in order: whether every start
/// string and rule was accepted so far, the lines fed, whether a start
/// string was set and whether a rule was added.
pub open spec fn parse_run(ls: Seq<Seq<char>>) -> (bool, Seq<Seq<char>>, bool, bool)
    decreases ls.len(),
{
    if ls.len() == 0 {
        (true, Seq::empty(), false, false)
    } else {
        let (ok, fed, has, rules) = parse_run(ls.drop_last());
        let t = trimmed(ls.last());
        if !ok {
            (false, fed, has, rules)
        } else {
            match kind_of(ls.last()) {
                LineKind::Axiom => (start_accepted(fed, t), fed.push(t), true, rules),
                LineKind::Define => (true, fed.push(t), has, rules),
                LineKind::Rule => (rule_accepted(fed, t), fed.push(t), has, true),
                _ => (true, fed, has, rules),
            }
        }
    }
}

/// Whether grammar source parses: it has an `omega:` line or a rule, and
/// symbios accepts every start string and rule, fed in order.
pub open spec fn parse_accepts(source: Seq<char>) -> bool {
    let run = parse_run(lines_of(source));
    run.0 && (run.2 || run.3)
}

/// The lines parsing feeds to symbios.
pub open spec fn fed_lines(source: Seq<char>) -> Seq<Seq<char>> {
    parse_run(lines_of(source)).1
}

proof fn lemma_run_failure_stays(ls: Seq<Seq<char>>, i: int)
    requires
        0 <= i <= ls.len(),
        !parse_run(ls.take(i)).0,
    ensures
        !parse_run(ls).0,
    decreases ls.len() - i,
{
    if i < ls.len() {
        assert(ls.take(i + 1).drop_last() =~= ls.take(i));
        lemma_run_failure_stays(ls, i + 1);
    } else {
        assert(ls.take(i) =~= ls);
    }
}

/// Strict lexicographic order on character codes (the order of `str`'s `<`).
pub open spec fn lex_lt(a: Seq<char>, b: Seq<char>) -> bool
    decreases a.len(),
{
    if b.len() == 0 {
        false
    } else if a.len() == 0 {
        true
    } else if a[0] != b[0] {
        (a[0] as u32) < (b[0] as u32)
    } else {
        lex_lt(a.drop_first(), b.drop_first())
    }
}

proof fn lemma_lex_lt_trans(a: Seq<char>, b: Seq<char>, c: Seq<char>)
    requires
        lex_lt(a, b),
        lex_lt(b, c),
    ensures
        lex_lt(a, c),
    decreases a.len(),
{
    if a.len() > 0 && b.len() > 0 && c.len() > 0 && a[0] == b[0] && b[0] == c[0] {
        lemma_lex_lt_trans(a.drop_first(), b.drop_first(), c.drop_first());
    }
}

proof fn lemma_lex_lt_irreflexive(a: Seq<char>)
    ensures
        !lex_lt(a, a),
    decreases a.len(),
{
    if a.len() > 0 {
        lemma_lex_lt_irreflexive(a.drop_first());
    }
}

/// Each name appears once.
pub open spec fn names_distinct(d: Seq<(Seq<char>, Seq<char>)>) -> bool {
    forall|i: int, j: int| 0 <= i < j < d.len() ==> #[trigger] d[i].0 != #[trigger] d[j].0
}

/// Definitions in non-decreasing order of name.
pub open spec fn names_sorted(d: Seq<(Seq<char>, Seq<char>)>) -> bool {
    forall|i: int, j: int| 0 <= i < j < d.len() ==> !lex_lt(#[trigger] d[j].0, #[trigger] d[i].0)
}

fn lex_lt_exec(a: &str, b: &str) -> (r: bool)
    ensures
        r == lex_lt(a@, b@),
{
    let n = a.unicode_len();
    let m = b.unicode_len();
    let mut i: usize = 0;
    assert(a@.subrange(0, n as int) =~= a@);
    assert(b@.subrange(0, m as int) =~= b@);
    while i < n && i < m && a.get_char(i) == b.get_char(i)
        invariant
            n == a@.len(),
            m == b@.len(),
            i <= n,
            i <= m,
            lex_lt(a@, b@) == lex_lt(a@.subrange(i as int, n as int), b@.subrange(i as int, m as int)),
        decreases n - i,
    {
        assert(a@.subrange(i as int, n as int).drop_first() =~= a@.subrange(i + 1, n as int));
        assert(b@.subrange(i as int, m as int).drop_first() =~= b@.subrange(i + 1, m as int));
        i = i + 1;
    }
    if i == m {
        false
    } else if i == n {
        true
    } else {
        (a.get_char(i) as u32) < (b.get_char(i) as u32)
    }
}

/// The definitions ordered by name.
pub fn sort_by_name(v: &Vec<(String, String)>) -> (r: Vec<(String, String)>)
    requires
        names_distinct(pair_views(v@)),
    ensures
        names_sorted(pair_views(r@)),
        names_distinct(pair_views(r@)),
        r@.len() == v@.len(),
        forall|x: (Seq<char>, Seq<char>)| pair_views(r@).contains(x) <==> pair_views(v@).contains(x),
{
    let mut out: Vec<(String, String)> = Vec::new();
    let mut i: usize = 0;
    while i < v.len()
        invariant
            i <= v@.len(),
            out@.len() == i,
            names_sorted(pair_views(out@)),
            names_distinct(pair_views(out@)),
            names_distinct(pair_views(v@)),
            forall|x: (Seq<char>, Seq<char>)|
                pair_views(out@).contains(x) <==> pair_views(v@.take(i as int)).contains(x),
        decreases v@.len() - i,
    {
        let name = v[i].0.clone();
        let value = v[i].1.clone();
        let mut p: usize = 0;
        while p < out.len() && !lex_lt_exec(name.as_str(), out[p].0.as_str())
            invariant
                p <= out@.len(),
                forall|q: int| 0 <= q < p ==> !lex_lt(name@, #[trigger] out@[q].0@),
            decreases out@.len() - p,
        {
            p = p + 1;
        }
        let ghost before = pair_views(out@);
        let ghost item = (name@, value@);
        assert(forall|q: int| 0 <= q < p ==> !lex_lt(item.0, #[trigger] before[q].0));
        assert(p < before.len() ==> lex_lt(item.0, before[p as int].0));
        assert(forall|x: (Seq<char>, Seq<char>)|
            before.contains(x) <==> pair_views(v@.take(i as int)).contains(x));
        assert forall|q: int| 0 <= q < before.len() implies #[trigger] before[q].0 != item.0 by {
            assert(before.contains(before[q]));
            let cur = pair_views(v@.take(i as int));
            assert(cur.contains(before[q]));
            let j = choose|j: int| 0 <= j < cur.len() && cur[j] == before[q];
            assert(pair_views(v@)[j] == before[q]);
            assert(pair_views(v@)[i as int] == item);
        }
        out.insert(p, (name, value));
        let ghost now = pair_views(out@);
        assert(now =~= before.insert(p as int, item));
        assert(names_distinct(now)) by {
            assert forall|a: int, b: int| 0 <= a < b < now.len() implies #[trigger] now[a].0 != #[trigger] now[b].0 by {
                let a2 = if a < p { a } else { a - 1 };
                let b2 = if b < p { b } else { b - 1 };
                if a == p {
                    assert(now[b] == before[b2]);
                } else if b == p {
                    assert(now[a] == before[a2]);
                } else {
                    assert(now[a] == before[a2]);
                    assert(now[b] == before[b2]);
                    assert(before[a2].0 != before[b2].0);
                }
            }
        }
        assert(names_sorted(now)) by {
            assert forall|a: int, b: int| 0 <= a < b < now.len() implies !lex_lt(
                #[trigger] now[b].0,
                #[trigger] now[a].0,
            ) by {
                if a < p && b == p {
                    assert(now[a] == before[a]);
                    assert(!lex_lt(item.0, before[a].0));
                } else if a == p && b > p {
                    let o = before[p as int].0;
                    assert(now[b] == before[b - 1]);
                    if lex_lt(before[b - 1].0, item.0) {
                        lemma_lex_lt_trans(before[b - 1].0, item.0, o);
                        if b - 1 == p {
                            lemma_lex_lt_irreflexive(o);
                        } else {
                            assert(!lex_lt(before[b - 1].0, before[p as int].0));
                        }
                    }
                } else if a < p && b > p {
                    assert(now[b] == before[b - 1]);
                    assert(now[a] == before[a]);
                    assert(!lex_lt(before[b - 1].0, before[a].0));
                } else if a > p {
                    assert(now[b] == before[b - 1]);
                    assert(now[a] == before[a - 1]);
                    assert(!lex_lt(before[b - 1].0, before[a - 1].0));
                } else {
                    assert(now[b] == before[b]);
                    assert(now[a] == before[a]);
                    assert(!lex_lt(before[b].0, before[a].0));
                }
            }
        }
        let ghost cur = pair_views(v@.take(i as int));
        let ghost nxt = pair_views(v@.take(i + 1));
        assert(nxt =~= cur.push(item));
        assert forall|x: (Seq<char>, Seq<char>)|
            now.contains(x) <==> nxt.contains(x) by {
            if now.contains(x) {
                let k = choose|k: int| 0 <= k < now.len() && now[k] == x;
                if k < p {
                    assert(before[k] == x);
                    assert(before.contains(x));
                } else if k > p {
                    assert(before[k - 1] == x);
                    assert(before.contains(x));
                }
                assert(nxt.last() == item);
                if x != item {
                    assert(cur.contains(x));
                    let kk = choose|kk: int| 0 <= kk < cur.len()
                        && cur[kk] == x;
                    assert(nxt[kk] == x);
                }
            }
            if nxt.contains(x) {
                if x == item {
                    assert(now[p as int] == x);
                } else {
                    let kk = choose|kk: int| 0 <= kk < nxt.len()
                        && nxt[kk] == x;
                    assert(cur[kk] == x);
                    assert(before.contains(x));
                    let k = choose|k: int| 0 <= k < before.len() && before[k] == x;
                    if k < p {
                        assert(now[k] == x);
                    } else {
                        assert(now[k + 1] == x);
                    }
                }
            }
        }
        i = i + 1;
    }
    assert(v@.take(v@.len() as int) =~= v@);
    out
}

/// Parses grammar source into its compiled form, line by line: blank and
/// `//` lines are skipped, an `omega:` line sets the start string, `#define`
/// lines go to symbios's directive handling, which evaluates the value as an
/// expression over the constants defined so far (a definition it refuses is
/// left out), and any other line holding `->` is a rule. Fails when the text
/// has neither an omega line nor a rule, or when a start string or a rule is
/// refused.
pub fn parse_source(source: &str) -> (r: Option<System>)
    ensures
        r is Some <==> parse_accepts(source@),
        r matches Some(s) ==> rule_texts(s) == compiled_rules(fed_lines(source@))
            && constant_table(s) == compiled_constants(fed_lines(source@)),
{
    let ls = split_lines(source);
    let ghost gls = views(ls@);
    let mut c = fresh_compiler();
    let mut has_start = false;
    let mut has_rule = false;
    let mut i: usize = 0;
    while i < ls.len()
        invariant
            i <= ls@.len(),
            gls == views(ls@),
            gls == lines_of(source@),
            parse_run(gls.take(i as int)).0,
            c.history() == parse_run(gls.take(i as int)).1,
            has_start == parse_run(gls.take(i as int)).2,
            has_rule == parse_run(gls.take(i as int)).3,
        decreases ls@.len() - i,
    {
        let line = ls[i].as_str();
        let kind = line_kind(line);
        assert(gls.take(i + 1).drop_last() =~= gls.take(i as int));
        assert(gls.take(i + 1).last() == line@);
        proof {
            lemma_trimmed_idempotent(line@);
        }
        if kind == LineKind::Axiom {
            let t = trim(line);
            let n = t.as_str().unicode_len();
            proof {
                reveal_strlit("omega:");
            }
            let start = trim(t.as_str().substring_char(6, n));
            if !feed_start(&mut c, t.as_str(), start.as_str()) {
                proof {
                    lemma_run_failure_stays(gls, i + 1);
                }
                return None;
            }
            has_start = true;
        } else if kind == LineKind::Define {
            let t = trim(line);
            feed_directive(&mut c, t.as_str());
        } else if kind == LineKind::Rule {
            let t = trim(line);
            if !feed_rule(&mut c, t.as_str()) {
                proof {
                    lemma_run_failure_stays(gls, i + 1);
                }
                return None;
            }
            has_rule = true;
        }
        i = i + 1;
    }
    assert(gls.take(ls@.len() as int) =~= gls);
    if has_start || has_rule {
        Some(finish_compiler(c))
    } else {
        None
    }
}

/// Reconstructs source text from a compiled grammar and the text it came
/// from: the preamble of the original, then the grammar's constants as
/// `#define` lines sorted by name, then the original omega line, then the
/// grammar's rules.
pub fn reconstruct_source(system: &System, original: &str) -> (r: String)
    ensures
        rebuilt_from(*system, original@, r@),
{
    let rules = system_rule_texts(system);
    let constants = system_constant_texts(system);
    let defines = sort_by_name(&constants);
    let r = rebuild_source(original, &defines, &rules);
    proof {
        let d = pair_views(defines@);
        let c = pair_views(constants@);
        let m = constant_table(*system);
        assert forall|i: int| 0 <= i < d.len() implies m.contains_key(#[trigger] d[i].0) && m[d[i].0] == d[i].1 by {
            assert(d.contains(d[i]));
            let j = choose|j: int| 0 <= j < c.len() && c[j] == d[i];
        }
        assert forall|k: Seq<char>| #[trigger] m.contains_key(k) implies exists|i: int| 0 <= i < d.len() && d[i].0 == k by {
            let j = choose|j: int| 0 <= j < c.len() && c[j].0 == k;
            assert(c.contains(c[j]));
            let i = choose|i: int| 0 <= i < d.len() && d[i] == c[j];
        }
        assert(rebuilt_from(*system, original@, r@)) by {
            assert(names_sorted(d) && names_distinct(d) && table_listed(d, m) && views(rules@).to_multiset() == rule_texts(*system)
                && r@ == join_lines(rebuilt_lines(lines_of(original@), d, views(rules@))));
        }
    }
    r
}

} // verus!
