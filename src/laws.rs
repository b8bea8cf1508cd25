//! Laws of source reconstruction, proved over the line structure of the
//! rebuilt text.
use vstd::prelude::*;
use vstd::seq_lib::to_multiset_contains;
use symbios::System;
use crate::codec::{
    axiom_line, define_line, define_lines, join_lines, kept_in_preamble, option_line, preamble,
    rebuilt_lines, rule_seen,
};
use crate::grammar::{constant_table, names_distinct, names_sorted, rebuilt_from, rule_texts, table_listed};
use crate::text::{has_prefix, is_space, kind_of, lines_of, pieces, trim_back, trim_front, trimmed, LineKind};

verus! {

proof fn lemma_trim_back_keeps_prefix(s: Seq<char>, p: Seq<char>)
    requires
        has_prefix(s, p),
        p.len() > 0,
        !is_space(p.last()),
    ensures
        has_prefix(trim_back(s), p),
    decreases s.len(),
{
    if s.len() > 0 && is_space(s.last()) {
        if s.len() == p.len() {
            assert(s.subrange(0, p.len() as int) == p);
            assert(s.last() == p.last());
        } else {
            assert(s.drop_last().subrange(0, p.len() as int) =~= s.subrange(0, p.len() as int));
            lemma_trim_back_keeps_prefix(s.drop_last(), p);
        }
    }
}

/// A `#define` line written by reconstruction is read back as a definition.
proof fn lemma_define_line_kind(name: Seq<char>, value: Seq<char>)
    ensures
        kind_of(define_line(name, value)) == LineKind::Define,
{
    reveal_strlit("#define ");
    reveal_strlit("#define");
    reveal_strlit(" ");
    reveal_strlit("//");
    reveal_strlit("omega:");
    let s = define_line(name, value);
    assert(s[0] == '#');
    assert(trim_front(s) == s);
    assert(has_prefix(s, "#define"@)) by {
        assert(s.subrange(0, 7) =~= "#define"@);
    }
    lemma_trim_back_keeps_prefix(s, "#define"@);
    let t = trimmed(s);
    assert(t.subrange(0, 7) == "#define"@);
    assert("#define"@[0] == '#');
    assert(t.subrange(0, 7)[0] == t[0]);
    assert(t[0] == '#');
    assert(!has_prefix(t, "//"@)) by {
        if has_prefix(t, "//"@) {
            assert(t.subrange(0, 2)[0] == '/');
        }
    }
    assert(!has_prefix(t, "omega:"@)) by {
        if has_prefix(t, "omega:"@) {
            assert(t.subrange(0, 6)[0] == 'o');
        }
    }
}

proof fn lemma_preamble_kinds(ls: Seq<Seq<char>>)
    ensures
        forall|i: int| 0 <= i < preamble(ls).len() ==> {
            let k = kind_of(#[trigger] preamble(ls)[i]);
            k != LineKind::Define && k != LineKind::Axiom && k != LineKind::Rule
        },
    decreases ls.len(),
{
    if ls.len() > 0 {
        lemma_preamble_kinds(ls.drop_last());
        if kept_in_preamble(ls.last(), rule_seen(ls.drop_last())) {
            let p = preamble(ls.drop_last());
            assert forall|i: int| 0 <= i < preamble(ls).len() implies {
                let k = kind_of(#[trigger] preamble(ls)[i]);
                k != LineKind::Define && k != LineKind::Axiom && k != LineKind::Rule
            } by {
                if i < p.len() {
                    assert(preamble(ls)[i] == p[i]);
                }
            }
        }
    }
}

proof fn lemma_omega_line_kind(ls: Seq<Seq<char>>)
    ensures
        axiom_line(ls) matches Some(l) ==> kind_of(l) == LineKind::Axiom,
    decreases ls.len(),
{
    if ls.len() > 0 {
        lemma_omega_line_kind(ls.drop_last());
    }
}

/// Appending lines that are not omega lines leaves the omega line as it was.
proof fn lemma_omega_line_append(a: Seq<Seq<char>>, b: Seq<Seq<char>>)
    requires
        forall|i: int| 0 <= i < b.len() ==> kind_of(#[trigger] b[i]) != LineKind::Axiom,
    ensures
        axiom_line(a + b) == axiom_line(a),
    decreases b.len(),
{
    if b.len() > 0 {
        assert((a + b).drop_last() =~= a + b.drop_last());
        assert((a + b).last() == b.last());
        lemma_omega_line_append(a, b.drop_last());
    } else {
        assert(a + b =~= a);
    }
}

/// Reconstruction keeps the omega line: read back, the rebuilt lines give the
/// omega line of the original text (given rule lines that are not omega
/// lines themselves).
pub proof fn lemma_reconstruction_keeps_omega(
    ls: Seq<Seq<char>>,
    d: Seq<(Seq<char>, Seq<char>)>,
    rules: Seq<Seq<char>>,
)
    requires
        forall|i: int| 0 <= i < rules.len() ==> kind_of(#[trigger] rules[i]) == LineKind::Rule,
    ensures
        axiom_line(rebuilt_lines(ls, d, rules)) == axiom_line(ls),
{
    let pre = preamble(ls);
    let defs = define_lines(d);
    let om = option_line(axiom_line(ls));
    lemma_preamble_kinds(ls);
    assert forall|i: int| 0 <= i < defs.len() implies kind_of(#[trigger] defs[i]) == LineKind::Define by {
        lemma_define_line_kind(d[i].0, d[i].1);
    }
    lemma_omega_line_append(Seq::empty(), pre);
    assert(Seq::<Seq<char>>::empty() + pre =~= pre);
    assert(axiom_line(Seq::<Seq<char>>::empty()) is None);
    lemma_omega_line_append(pre, defs);
    lemma_omega_line_append(pre + defs + om, rules);
    lemma_omega_line_kind(ls);
    match axiom_line(ls) {
        Some(l) => {
            assert((pre + defs + om).drop_last() =~= pre + defs);
            assert((pre + defs + om).last() == l);
        },
        None => {
            assert(pre + defs + om =~= pre + defs);
        },
    }
}

/// Define before use: in reconstructed source every `#define` line comes
/// before the omega line, which comes before every rule line (given rule
/// lines that read back as rules).
pub proof fn lemma_define_before_omega(
    ls: Seq<Seq<char>>,
    d: Seq<(Seq<char>, Seq<char>)>,
    rules: Seq<Seq<char>>,
)
    requires
        forall|i: int| 0 <= i < rules.len() ==> kind_of(#[trigger] rules[i]) == LineKind::Rule,
    ensures
        ({
            let out = rebuilt_lines(ls, d, rules);
            forall|i: int, j: int|
                0 <= i < out.len() && 0 <= j < out.len() ==> {
                    &&& kind_of(#[trigger] out[i]) == LineKind::Define && kind_of(#[trigger] out[j]) == LineKind::Axiom ==> i < j
                    &&& kind_of(out[i]) == LineKind::Axiom && kind_of(out[j]) == LineKind::Rule ==> i < j
                    &&& kind_of(out[i]) == LineKind::Define && kind_of(out[j]) == LineKind::Rule ==> i < j
                }
        }),
{
    let pre = preamble(ls);
    let defs = define_lines(d);
    let om = option_line(axiom_line(ls));
    let out = rebuilt_lines(ls, d, rules);
    lemma_preamble_kinds(ls);
    lemma_omega_line_kind(ls);
    assert forall|i: int| 0 <= i < defs.len() implies kind_of(#[trigger] defs[i]) == LineKind::Define by {
        lemma_define_line_kind(d[i].0, d[i].1);
    }
    let a = pre.len() as int;
    let b = a + defs.len();
    let c = b + om.len();
    assert forall|i: int| 0 <= i < out.len() implies {
        let k = kind_of(#[trigger] out[i]);
        &&& (k == LineKind::Define ==> a <= i < b)
        &&& (k == LineKind::Axiom ==> b <= i < c)
        &&& (k == LineKind::Rule ==> c <= i)
    } by {
        if i < a {
            assert(out[i] == pre[i]);
        } else if i < b {
            assert(out[i] == defs[i - a]);
        } else if i < c {
            assert(out[i] == om[i - b]);
        } else {
            assert(out[i] == rules[i - c]);
        }
    }
}


pub open spec fn no_newline(s: Seq<char>) -> bool {
    forall|i: int| 0 <= i < s.len() ==> s[i] != '\n'
}

proof fn lemma_pieces_single(s: Seq<char>)
    requires
        no_newline(s),
    ensures
        pieces(s) == seq![s],
    decreases s.len(),
{
    if s.len() > 0 {
        assert(no_newline(s.drop_last()));
        assert(s.last() != '\n');
        lemma_pieces_single(s.drop_last());
        assert(s.drop_last().push(s.last()) =~= s);
        assert(seq![s.drop_last()].update(0, s.drop_last().push(s.last())) =~= seq![s]);
    } else {
        assert(s =~= Seq::<char>::empty());
    }
}

proof fn lemma_pieces_after_newline(a: Seq<char>, b: Seq<char>)
    requires
        no_newline(b),
    ensures
        pieces(a + seq!['\n'] + b) == pieces(a).push(b),
    decreases b.len(),
{
    let s = a + seq!['\n'] + b;
    if b.len() == 0 {
        assert(s.drop_last() =~= a);
        assert(s.last() == '\n');
        assert(b =~= Seq::<char>::empty());
    } else {
        assert(s.drop_last() =~= a + seq!['\n'] + b.drop_last());
        assert(s.last() == b.last());
        assert(b.last() != '\n');
        assert(no_newline(b.drop_last()));
        assert(b.drop_last().push(b.last()) =~= b);
        lemma_pieces_after_newline(a, b.drop_last());
        assert(pieces(a).push(b.drop_last()).update(pieces(a).len() as int, b.drop_last().push(b.last()))
            =~= pieces(a).push(b));
    }
}

proof fn lemma_pieces_of_join(ls: Seq<Seq<char>>)
    requires
        ls.len() > 0,
        forall|i: int| 0 <= i < ls.len() ==> no_newline(#[trigger] ls[i]),
    ensures
        pieces(join_lines(ls)) == ls,
    decreases ls.len(),
{
    if ls.len() == 1 {
        lemma_pieces_single(ls[0]);
        assert(seq![ls[0]] =~= ls);
    } else {
        let init = ls.drop_last();
        assert forall|i: int| 0 <= i < init.len() implies no_newline(#[trigger] init[i]) by {
            assert(init[i] == ls[i]);
        }
        lemma_pieces_of_join(init);
        assert(no_newline(ls[ls.len() - 1]));
        lemma_pieces_after_newline(join_lines(init), ls.last());
        assert(init.push(ls.last()) =~= ls);
    }
}

/// Lines joined by newlines split back into the same lines, when no line
/// holds a newline and the last one is not empty.
pub proof fn lemma_lines_of_join(ls: Seq<Seq<char>>)
    requires
        forall|i: int| 0 <= i < ls.len() ==> no_newline(#[trigger] ls[i]),
        ls.len() > 0 ==> ls.last().len() > 0,
    ensures
        lines_of(join_lines(ls)) == ls,
{
    if ls.len() == 0 {
        assert(pieces(Seq::<char>::empty()) == seq![Seq::<char>::empty()]);
        assert(seq![Seq::<char>::empty()].drop_last() =~= ls);
    } else {
        lemma_pieces_of_join(ls);
    }
}

proof fn lemma_pieces_nonempty(s: Seq<char>)
    ensures
        pieces(s).len() >= 1,
    decreases s.len(),
{
    if s.len() > 0 {
        lemma_pieces_nonempty(s.drop_last());
    }
}

proof fn lemma_pieces_no_newline(s: Seq<char>)
    ensures
        forall|i: int| 0 <= i < pieces(s).len() ==> no_newline(#[trigger] pieces(s)[i]),
    decreases s.len(),
{
    if s.len() > 0 {
        lemma_pieces_no_newline(s.drop_last());
        lemma_pieces_nonempty(s.drop_last());
        let p = pieces(s.drop_last());
        if s.last() != '\n' {
            assert forall|i: int| 0 <= i < pieces(s).len() implies no_newline(#[trigger] pieces(s)[i]) by {
                if i == p.len() - 1 {
                    assert(no_newline(p[i]));
                    assert(pieces(s)[i] == p[i].push(s.last()));
                } else {
                    assert(pieces(s)[i] == p[i]);
                }
            }
        } else {
            assert forall|i: int| 0 <= i < pieces(s).len() implies no_newline(#[trigger] pieces(s)[i]) by {
                if i < p.len() {
                    assert(pieces(s)[i] == p[i]);
                }
            }
        }
    }
}

proof fn lemma_preamble_from(ls: Seq<Seq<char>>)
    ensures
        forall|i: int| 0 <= i < preamble(ls).len() ==> ls.contains(#[trigger] preamble(ls)[i]),
    decreases ls.len(),
{
    if ls.len() > 0 {
        lemma_preamble_from(ls.drop_last());
        let p = preamble(ls.drop_last());
        assert forall|i: int| 0 <= i < preamble(ls).len() implies ls.contains(#[trigger] preamble(ls)[i]) by {
            if i < p.len() {
                assert(preamble(ls)[i] == p[i]);
                let j = choose|j: int| 0 <= j < ls.drop_last().len() && ls.drop_last()[j] == p[i];
                assert(ls[j] == p[i]);
            } else {
                assert(ls[ls.len() - 1] == preamble(ls)[i]);
            }
        }
    }
}

proof fn lemma_omega_line_from(ls: Seq<Seq<char>>)
    ensures
        axiom_line(ls) matches Some(l) ==> ls.contains(l),
    decreases ls.len(),
{
    if ls.len() > 0 {
        lemma_omega_line_from(ls.drop_last());
        if kind_of(ls.last()) != LineKind::Axiom {
            if let Some(l) = axiom_line(ls) {
                let j = choose|j: int| 0 <= j < ls.drop_last().len() && ls.drop_last()[j] == l;
                assert(ls[j] == l);
            }
        } else {
            assert(ls[ls.len() - 1] == ls.last());
        }
    }
}

proof fn lemma_blank_if_empty(s: Seq<char>)
    requires
        s.len() == 0,
    ensures
        kind_of(s) == LineKind::Blank,
{
    assert(trim_front(s) == s);
    assert(trim_back(s) == s);
}

/// Reconstructed text read back: its lines are exactly the rebuilt lines, so
/// every `#define` line precedes the omega line, which precedes every rule
/// line, and the omega line is the original one. Holds for source with an
/// omega line, constant names and values without newlines, and exported
/// rules that are single rule lines.
pub proof fn lemma_reconstructed_text(
    original: Seq<char>,
    d: Seq<(Seq<char>, Seq<char>)>,
    rules: Seq<Seq<char>>,
)
    requires
        axiom_line(lines_of(original)) is Some,
        forall|i: int| 0 <= i < d.len() ==> no_newline(#[trigger] d[i].0) && no_newline(d[i].1),
        forall|i: int| 0 <= i < rules.len() ==> no_newline(#[trigger] rules[i]) && kind_of(rules[i]) == LineKind::Rule,
    ensures
        ({
            let out = rebuilt_lines(lines_of(original), d, rules);
            let back = lines_of(join_lines(out));
            &&& back == out
            &&& axiom_line(back) == axiom_line(lines_of(original))
            &&& forall|i: int, j: int|
                0 <= i < back.len() && 0 <= j < back.len() ==> {
                    &&& kind_of(#[trigger] back[i]) == LineKind::Define && kind_of(#[trigger] back[j]) == LineKind::Axiom ==> i < j
                    &&& kind_of(back[i]) == LineKind::Axiom && kind_of(back[j]) == LineKind::Rule ==> i < j
                    &&& kind_of(back[i]) == LineKind::Define && kind_of(back[j]) == LineKind::Rule ==> i < j
                }
        }),
{
    reveal_strlit("#define ");
    reveal_strlit(" ");
    let ls = lines_of(original);
    let out = rebuilt_lines(ls, d, rules);
    let pre = preamble(ls);
    let defs = define_lines(d);
    let om = option_line(axiom_line(ls));
    lemma_pieces_no_newline(original);
    lemma_pieces_nonempty(original);
    assert forall|i: int| 0 <= i < ls.len() implies no_newline(#[trigger] ls[i]) by {
        assert(ls[i] == pieces(original)[i]);
    }
    lemma_preamble_from(ls);
    lemma_omega_line_from(ls);
    lemma_omega_line_kind(ls);
    let l = axiom_line(ls)->0;
    assert forall|i: int| 0 <= i < out.len() implies no_newline(#[trigger] out[i]) by {
        let a = pre.len() as int;
        let b = a + defs.len();
        let c = b + om.len();
        if i < a {
            assert(out[i] == pre[i]);
            let j = choose|j: int| 0 <= j < ls.len() && ls[j] == pre[i];
            assert(no_newline(ls[j]));
        } else if i < b {
            assert(out[i] == defs[i - a]);
            let (n, v) = d[i - a];
            assert(no_newline(n) && no_newline(v));
            assert(defs[i - a] == "#define "@ + n + " "@ + v);
            assert forall|k: int| 0 <= k < out[i].len() implies out[i][k] != '\n' by {
                if k < 8 {
                } else if k < 8 + n.len() {
                    assert(out[i][k] == n[k - 8]);
                } else if k == 8 + n.len() {
                } else {
                    assert(out[i][k] == v[k - 9 - n.len()]);
                }
            }
        } else if i < c {
            assert(out[i] == l);
            let j = choose|j: int| 0 <= j < ls.len() && ls[j] == l;
            assert(no_newline(ls[j]));
        } else {
            assert(out[i] == rules[i - c]);
        }
    }
    if rules.len() > 0 {
        assert(out.last() == rules[rules.len() - 1]);
        if rules[rules.len() - 1].len() == 0 {
            lemma_blank_if_empty(rules[rules.len() - 1]);
        }
    } else {
        assert(out =~= pre + defs + om);
        assert(out.last() == l);
        if l.len() == 0 {
            lemma_blank_if_empty(l);
        }
    }
    lemma_lines_of_join(out);
    lemma_reconstruction_keeps_omega(ls, d, rules);
    lemma_define_before_omega(ls, d, rules);
}

/// Define before use, for the text `reconstruct_source` returns: read back,
/// its lines are the rebuilt ones, every `#define` line (one per constant of
/// the grammar, sorted by name) precedes the omega line, which precedes every
/// rule line, and the omega line is the original one. Holds for source with
/// an omega line, when the grammar's rule texts are single rule lines and its
/// constant names and values hold no newline.
pub proof fn lemma_reconstruct_source_reads_back(system: System, original: Seq<char>, text: Seq<char>)
    requires
        rebuilt_from(system, original, text),
        axiom_line(lines_of(original)) is Some,
        forall|t: Seq<char>| #[trigger] rule_texts(system).count(t) > 0 ==> no_newline(t) && kind_of(t) == LineKind::Rule,
        forall|k: Seq<char>| #[trigger] constant_table(system).contains_key(k) ==> no_newline(k) && no_newline(constant_table(system)[k]),
    ensures
        exists|d: Seq<(Seq<char>, Seq<char>)>, rules: Seq<Seq<char>>| {
            &&& names_sorted(d)
            &&& names_distinct(d)
            &&& table_listed(d, constant_table(system))
            &&& rules.to_multiset() == rule_texts(system)
            &&& #[trigger] lines_of(text) == rebuilt_lines(lines_of(original), d, rules)
            &&& axiom_line(lines_of(text)) == axiom_line(lines_of(original))
            &&& forall|i: int, j: int|
                0 <= i < lines_of(text).len() && 0 <= j < lines_of(text).len() ==> {
                    &&& kind_of(#[trigger] lines_of(text)[i]) == LineKind::Define && kind_of(#[trigger] lines_of(text)[j]) == LineKind::Axiom ==> i < j
                    &&& kind_of(lines_of(text)[i]) == LineKind::Axiom && kind_of(lines_of(text)[j]) == LineKind::Rule ==> i < j
                    &&& kind_of(lines_of(text)[i]) == LineKind::Define && kind_of(lines_of(text)[j]) == LineKind::Rule ==> i < j
                }
        },
{
    let (d, rules) = choose|d: Seq<(Seq<char>, Seq<char>)>, rules: Seq<Seq<char>>|
        names_sorted(d) && names_distinct(d) && table_listed(d, constant_table(system)) && rules.to_multiset() == rule_texts(system)
            && text == join_lines(#[trigger] rebuilt_lines(lines_of(original), d, rules));
    assert forall|i: int| 0 <= i < rules.len() implies no_newline(#[trigger] rules[i]) && kind_of(rules[i]) == LineKind::Rule by {
        to_multiset_contains(rules, rules[i]);
        assert(rules.contains(rules[i]));
    }
    assert forall|i: int| 0 <= i < d.len() implies no_newline(#[trigger] d[i].0) && no_newline(d[i].1) by {
        assert(constant_table(system).contains_key(d[i].0));
    }
    lemma_reconstructed_text(original, d, rules);
}

} // verus!
