//! Emotion expressions read back what was written: parsing the expression
//! of a list of parameters gives the list again, where the names can be
//! written without ambiguity.

use vstd::prelude::*;
use crate::config::{
    emotion_string, first_index, param_text, parse_emotions, parse_param, parse_params,
    split_parts, split_scan,
};
use crate::number::{decimal, digits, is_digit, lemma_parse_decimal, lemma_digits_round_trip};
use crate::text::{is_white_space, lemma_trim_bounds, trim};

verus! {

/// A name that an emotion expression holds unchanged: no `,` or `=` in it,
/// and no white space at either end.
pub open spec fn clean_name(n: Seq<char>) -> bool {
    &&& forall|i: int| 0 <= i < n.len() ==> #[trigger] n[i] != ',' && n[i] != '='
    &&& n.len() > 0 ==> !is_white_space(n[0]) && !is_white_space(n.last())
}

proof fn lemma_split_scan_append(s: Seq<char>, t: Seq<char>, sep: char)
    requires
        forall|i: int| 0 <= i < t.len() ==> #[trigger] t[i] != sep,
    ensures
        split_scan(s + t, sep) == (split_scan(s, sep).0, split_scan(s, sep).1 + t),
    decreases t.len(),
{
    if t.len() == 0 {
        assert(s + t =~= s);
        assert(split_scan(s, sep).1 + t =~= split_scan(s, sep).1);
    } else {
        let init = t.drop_last();
        lemma_split_scan_append(s, init, sep);
        assert((s + t).drop_last() =~= s + init);
        assert((s + t).last() == t.last());
        assert(t[t.len() - 1] != sep);
        assert((split_scan(s, sep).1 + init).push(t.last()) =~= split_scan(s, sep).1 + t);
    }
}

proof fn lemma_trim_keeps(s: Seq<char>)
    requires
        s.len() > 0 ==> !is_white_space(s[0]) && !is_white_space(s.last()),
    ensures
        trim(s) == s,
{
    let (a, b) = lemma_trim_bounds(s);
    if s.len() > 0 {
        if a > 0 {
            assert(is_white_space(s[0]));
        }
        if b < s.len() {
            assert(is_white_space(s[s.len() - 1]));
        }
    }
    assert(s.subrange(0, s.len() as int) =~= s);
}

proof fn lemma_first_index_after(a: Seq<char>, c: char, b: Seq<char>)
    requires
        forall|i: int| 0 <= i < a.len() ==> #[trigger] a[i] != c,
    ensures
        first_index(a + seq![c] + b, c) == Some(a.len() as int),
    decreases a.len(),
{
    let s = a + seq![c] + b;
    if a.len() > 0 {
        let rest = a.drop_first();
        assert(s.drop_first() =~= rest + seq![c] + b);
        assert(a[0] != c);
        lemma_first_index_after(rest, c, b);
    }
}

proof fn lemma_decimal_chars(v: int)
    ensures
        decimal(v).len() > 0,
        forall|i: int| 0 <= i < decimal(v).len() ==> #[trigger] decimal(v)[i] != ','
            && decimal(v)[i] != '=',
        is_digit(decimal(v).last()),
        !is_white_space(decimal(v).last()),
{
    let m: nat = if v < 0 {
        (-v) as nat
    } else {
        v as nat
    };
    lemma_digits_round_trip(m);
    let d = digits(m);
    assert(is_digit(d[d.len() - 1]));
    if v < 0 {
        assert(decimal(v) == seq!['-'] + d);
        assert(decimal(v).last() == d.last());
        assert forall|i: int| 0 <= i < decimal(v).len() implies #[trigger] decimal(v)[i] != ','
            && decimal(v)[i] != '=' by {
            if i > 0 {
                assert(decimal(v)[i] == d[i - 1]);
            }
        }
    } else {
        assert forall|i: int| 0 <= i < decimal(v).len() implies #[trigger] decimal(v)[i] != ','
            && decimal(v)[i] != '=' by {
            assert(is_digit(d[i]));
        }
    }
}

proof fn lemma_param_text(p: (Seq<char>, i32))
    requires
        clean_name(p.0),
    ensures
        parse_param(param_text(p)) == Some(p),
        forall|i: int| 0 <= i < param_text(p).len() ==> #[trigger] param_text(p)[i] != ',',
        !is_white_space(param_text(p).last()),
{
    let name = p.0;
    let d = decimal(p.1 as int);
    let t = param_text(p);
    lemma_decimal_chars(p.1 as int);
    lemma_parse_decimal(p.1);
    assert(t == name + seq!['='] + d);
    assert(t.last() == d.last());
    assert forall|i: int| 0 <= i < t.len() implies #[trigger] t[i] != ',' by {
        if i < name.len() {
            assert(t[i] == name[i]);
        } else if i > name.len() {
            assert(t[i] == d[i - name.len() - 1]);
        }
    }
    if name.len() > 0 {
        assert(t[0] == name[0]);
    }
    lemma_trim_keeps(t);
    lemma_first_index_after(name, '=', d);
    assert(t.skip(name.len() as int + 1) =~= d);
    assert(t.take(name.len() as int) =~= name);
    lemma_trim_keeps(name);
}

proof fn lemma_split_emotions(ps: Seq<(Seq<char>, i32)>)
    requires
        ps.len() > 0,
        forall|i: int| 0 <= i < ps.len() ==> clean_name(#[trigger] ps[i].0),
    ensures
        split_parts(emotion_string(ps), ',') == ps.map_values(|p: (Seq<char>, i32)| param_text(p)),
        !is_white_space(emotion_string(ps).last()),
    decreases ps.len(),
{
    let last = ps.last();
    assert(clean_name(ps[ps.len() - 1].0));
    lemma_param_text(last);
    let t = param_text(last);
    if ps.len() == 1 {
        assert(Seq::<char>::empty() + t =~= t);
        lemma_split_scan_append(Seq::<char>::empty(), t, ',');
        assert(split_scan(Seq::<char>::empty(), ',').1 + t =~= t);
        assert(ps.map_values(|p: (Seq<char>, i32)| param_text(p)) =~= seq![t]);
    } else {
        let init = ps.drop_last();
        assert forall|i: int| 0 <= i < init.len() implies clean_name(#[trigger] init[i].0) by {
            assert(init[i] == ps[i]);
        }
        lemma_split_emotions(init);
        let e = emotion_string(init);
        let s = e.push(',');
        assert(emotion_string(ps) =~= s + t);
        lemma_split_scan_append(s, t, ',');
        assert(s.drop_last() =~= e);
        assert(split_scan(s, ',') == (split_parts(e, ','), Seq::<char>::empty()));
        assert(Seq::<char>::empty() + t =~= t);
        assert(ps.map_values(|p: (Seq<char>, i32)| param_text(p)) =~= init.map_values(
            |p: (Seq<char>, i32)| param_text(p),
        ).push(t));
    }
}

proof fn lemma_parse_texts(ps: Seq<(Seq<char>, i32)>)
    requires
        forall|i: int| 0 <= i < ps.len() ==> clean_name(#[trigger] ps[i].0),
    ensures
        parse_params(ps.map_values(|p: (Seq<char>, i32)| param_text(p))) == ps,
    decreases ps.len(),
{
    let texts = ps.map_values(|p: (Seq<char>, i32)| param_text(p));
    if ps.len() > 0 {
        let init = ps.drop_last();
        assert forall|i: int| 0 <= i < init.len() implies clean_name(#[trigger] init[i].0) by {
            assert(init[i] == ps[i]);
        }
        lemma_parse_texts(init);
        assert(texts.drop_last() =~= init.map_values(|p: (Seq<char>, i32)| param_text(p)));
        assert(clean_name(ps[ps.len() - 1].0));
        lemma_param_text(ps.last());
        assert(init.push(ps.last()) =~= ps);
    } else {
        assert(texts =~= Seq::<Seq<char>>::empty());
    }
}

/// Reading back the emotion expression of `ps` gives `ps`, where every name
/// is clean.
pub proof fn lemma_emotions_round_trip(ps: Seq<(Seq<char>, i32)>)
    requires
        forall|i: int| 0 <= i < ps.len() ==> clean_name(#[trigger] ps[i].0),
    ensures
        parse_emotions(emotion_string(ps)) == ps,
{
    if ps.len() == 0 {
        assert(trim(Seq::<char>::empty()) =~= Seq::<char>::empty()) by {
            lemma_trim_keeps(Seq::<char>::empty());
        }
    } else {
        let s = emotion_string(ps);
        lemma_split_emotions(ps);
        lemma_parse_texts(ps);
        let (a, b) = lemma_trim_bounds(s);
        if trim(s).len() == 0 {
            assert(s.len() > 0);
            let k = s.len() - 1;
            if k < b {
                assert(k >= a);
            }
            assert(is_white_space(s[k]));
        }
    }
}

} // verus!
