//! What `reg query` prints for the policy key, and the laws that tie reading
//! such a listing to installing and uninstalling.

use vstd::prelude::*;
use crate::forcelist::{
    addition_plan, first_free_slot, free_slot_from, has_entry, last_entry_name, line_value,
    listed_values, reg_sz, removal_plan, used_slots, values_of_lines, AdditionPlan,
    RemovalPlanView, ubol_entry_spec, UBOL_ID, WEBSTORE_UPDATE_URL,
};
use vstd::relations::injective_on;
use vstd::set_lib::{lemma_int_range, lemma_len_subset, lemma_map_size, set_int_range};
use crate::text::{
    lead, lemma_lead, lemma_trail, lemma_trim_bounds, lemma_trim_range, trail,
    decimal, is_digit, is_space, lemma_decimal, lemma_find, lemma_find_none,
    lemma_parse_decimal, lemma_split_lines_cons, occurs_at, parse_u32,
    split_lines, trim,
};

verus! {

pub open spec fn four_spaces() -> Seq<char> {
    seq![' ', ' ', ' ', ' ']
}

/// One value as `reg query` prints it: indented, with `REG_SZ` between name
/// and data, ended by a carriage return (the line feed follows).
pub open spec fn value_line(v: (Seq<char>, Seq<char>)) -> Seq<char> {
    four_spaces() + v.0 + four_spaces() + reg_sz() + four_spaces() + v.1 + seq!['\r']
}

pub open spec fn render_values(vals: Seq<(Seq<char>, Seq<char>)>) -> Seq<char>
    decreases vals.len(),
{
    if vals.len() == 0 {
        Seq::empty()
    } else {
        render_values(vals.drop_last()) + value_line(vals.last()) + seq!['\n']
    }
}

/// The whole listing of a key: an empty line, the key's path, its values,
/// and an empty line, each ended by CR LF.
pub open spec fn render_listing(header: Seq<char>, vals: Seq<(Seq<char>, Seq<char>)>) -> Seq<
    char,
> {
    seq!['\r', '\n'] + header + seq!['\r', '\n'] + render_values(vals) + seq!['\r', '\n']
}

pub open spec fn no_line_feed(s: Seq<char>) -> bool {
    forall|i: int| 0 <= i < s.len() ==> #[trigger] s[i] != '\n'
}

/// Non-empty, on one line, and neither beginning nor ending with whitespace.
pub open spec fn tidy(s: Seq<char>) -> bool {
    &&& s.len() >= 1
    &&& !is_space(s[0])
    &&& !is_space(s.last())
    &&& no_line_feed(s)
}

pub open spec fn free_of_reg_sz(s: Seq<char>) -> bool {
    forall|j: int| !occurs_at(s, reg_sz(), j)
}

/// What a value reads back as from its line: its name and its data, each
/// trimmed.
pub open spec fn read_back(v: (Seq<char>, Seq<char>)) -> (Seq<char>, Seq<char>) {
    (trim(v.0), trim(v.1))
}

pub open spec fn read_all(vals: Seq<(Seq<char>, Seq<char>)>) -> Seq<(Seq<char>, Seq<char>)> {
    vals.map_values(|v: (Seq<char>, Seq<char>)| read_back(v))
}

/// A value that `reg query` prints on a line of its own, with a name in
/// which `REG_SZ` does not occur.
pub open spec fn listable_value(v: (Seq<char>, Seq<char>)) -> bool {
    no_line_feed(v.0) && no_line_feed(v.1) && free_of_reg_sz(v.0)
}

pub open spec fn listable(header: Seq<char>, vals: Seq<(Seq<char>, Seq<char>)>) -> bool {
    &&& no_line_feed(header)
    &&& free_of_reg_sz(header)
    &&& forall|k: int| 0 <= k < vals.len() ==> listable_value(#[trigger] vals[k])
}

proof fn lemma_value_line_index(v: (Seq<char>, Seq<char>))
    ensures
        ({
            let (n, d) = v;
            let l = value_line(v);
            let nl = n.len() as int;
            let dl = d.len() as int;
            &&& l.len() == 19 + nl + dl
            &&& forall|i: int| 0 <= i < 4 ==> #[trigger] l[i] == ' '
            &&& forall|i: int| 4 <= i < 4 + nl ==> #[trigger] l[i] == n[i - 4]
            &&& forall|i: int| 4 + nl <= i < 8 + nl ==> #[trigger] l[i] == ' '
            &&& forall|i: int| 8 + nl <= i < 14 + nl ==> #[trigger] l[i] == reg_sz()[i - 8 - nl]
            &&& forall|i: int| 14 + nl <= i < 18 + nl ==> #[trigger] l[i] == ' '
            &&& forall|i: int| 18 + nl <= i < 18 + nl + dl ==> #[trigger] l[i] == d[i - 18 - nl]
            &&& l[18 + nl + dl] == '\r'
        }),
{
}

/// A value's line reads back as the value, trimmed.
#[verifier::spinoff_prover]
#[verifier::rlimit(60)]
proof fn lemma_line_value(v: (Seq<char>, Seq<char>))
    requires
        listable_value(v),
    ensures
        line_value(value_line(v)) == Some(read_back(v)),
{
    let (n, d) = v;
    let l = value_line(v);
    let nl = n.len() as int;
    let dl = d.len() as int;
    lemma_value_line_index(v);
    lemma_lead(n);
    lemma_trail(n);
    lemma_trim_bounds(n);
    lemma_lead(d);
    lemma_trail(d);
    lemma_trim_bounds(d);
    let ln = lead(n);
    let tn = trail(n);
    let ld = lead(d);
    let td = trail(d);
    let a = if ln < nl {
        4 + ln
    } else {
        8 + nl
    };
    let b = if ld < dl {
        18 + nl + td
    } else {
        14 + nl
    };
    // the trimmed line
    assert forall|j: int| 0 <= j < a implies is_space(#[trigger] l[j]) by {
        if 4 <= j < 4 + nl {
            assert(l[j] == n[j - 4]);
        }
    }
    assert forall|j: int| b <= j < l.len() implies is_space(#[trigger] l[j]) by {
        if 18 + nl <= j < 18 + nl + dl {
            assert(l[j] == d[j - 18 - nl]);
        }
    }
    assert(!is_space(l[a])) by {
        if ln < nl {
            assert(l[4 + ln] == n[ln]);
        } else {
            assert(l[8 + nl] == reg_sz()[0]);
        }
    }
    assert(!is_space(l[b - 1])) by {
        if ld < dl {
            assert(l[18 + nl + td - 1] == d[td - 1]);
        } else {
            assert(l[13 + nl] == reg_sz()[5]);
        }
    }
    lemma_trim_range(l, a, b);
    let t = trim(l);
    assert(t == l.subrange(a, b));
    // the first REG_SZ is the one between name and data
    let i0 = 8 + nl - a;
    assert forall|j: int| 0 <= j < i0 implies !occurs_at(t, reg_sz(), j) by {
        if occurs_at(t, reg_sz(), j) {
            let p = a + j;
            assert forall|q: int| 0 <= q < 6 implies #[trigger] l[p + q] == reg_sz()[q] by {
                assert(t.subrange(j, j + 6)[q] == t[j + q]);
                assert(t[j + q] == l[a + j + q]);
            }
            if p + 6 <= 4 + nl {
                assert(n.subrange(p - 4, p + 2) =~= reg_sz()) by {
                    assert forall|q: int| 0 <= q < 6 implies n.subrange(p - 4, p + 2)[q]
                        == reg_sz()[q] by {
                        assert(l[p + q] == n[p - 4 + q]);
                    }
                }
                assert(occurs_at(n, reg_sz(), p - 4));
            } else {
                let w = if p >= 4 + nl {
                    p
                } else {
                    4 + nl
                };
                assert(l[w] == ' ');
                assert(l[p + (w - p)] == reg_sz()[w - p]);
            }
        }
    }
    assert(t.subrange(i0, i0 + 6) =~= reg_sz()) by {
        assert forall|q: int| 0 <= q < 6 implies t.subrange(i0, i0 + 6)[q] == reg_sz()[q] by {
            assert(t[i0 + q] == l[8 + nl + q]);
        }
    }
    lemma_find(t, reg_sz(), i0);
    // the name
    let x = t.take(i0);
    if ln < nl {
        assert forall|j: int| tn - ln <= j < x.len() implies is_space(#[trigger] x[j]) by {
            assert(x[j] == l[a + j]);
            if a + j < 4 + nl {
                assert(l[a + j] == n[ln + j]);
            }
        }
        assert(x[0] == n[ln]);
        assert(x[tn - ln - 1] == n[tn - 1]);
        lemma_trim_range(x, 0, tn - ln);
        assert(x.subrange(0, tn - ln) =~= n.subrange(ln, tn)) by {
            assert forall|q: int| 0 <= q < tn - ln implies x.subrange(0, tn - ln)[q] == n.subrange(
                ln,
                tn,
            )[q] by {
                assert(x[q] == l[a + q]);
            }
        }
    } else {
        assert(x =~= Seq::<char>::empty());
        lemma_trim_range(x, 0, 0);
    }
    // the data
    let y = t.skip(i0 + 6);
    assert(y.len() == b - 14 - nl);
    if ld < dl {
        assert forall|j: int| 0 <= j < 4 + ld implies is_space(#[trigger] y[j]) by {
            assert(y[j] == l[14 + nl + j]);
            if j >= 4 {
                assert(l[14 + nl + j] == d[j - 4]);
            }
        }
        assert(y[4 + ld] == d[ld]);
        assert(y[3 + td] == d[td - 1]);
        lemma_trim_range(y, 4 + ld, 4 + td);
        assert(y.subrange(4 + ld, 4 + td) =~= d.subrange(ld, td)) by {
            assert forall|q: int| 0 <= q < td - ld implies y.subrange(4 + ld, 4 + td)[q]
                == d.subrange(ld, td)[q] by {
                assert(y[4 + ld + q] == l[18 + nl + ld + q]);
            }
        }
    } else {
        assert(y =~= Seq::<char>::empty());
        lemma_trim_range(y, 0, 0);
    }
}

proof fn lemma_render_split(vals: Seq<(Seq<char>, Seq<char>)>, rest: Seq<char>)
    requires
        forall|k: int| 0 <= k < vals.len() ==> listable_value(#[trigger] vals[k]),
    ensures
        split_lines(render_values(vals) + rest) == vals.map_values(
            |v: (Seq<char>, Seq<char>)| value_line(v),
        ) + split_lines(rest),
    decreases vals.len(),
{
    let lines = vals.map_values(|v: (Seq<char>, Seq<char>)| value_line(v));
    if vals.len() == 0 {
        assert(render_values(vals) + rest =~= rest);
        assert(lines + split_lines(rest) =~= split_lines(rest));
    } else {
        let init = vals.drop_last();
        let l = value_line(vals.last());
        assert(listable_value(vals[vals.len() - 1]));
        assert forall|k: int| 0 <= k < init.len() implies listable_value(#[trigger] init[k]) by {
            assert(init[k] == vals[k]);
        }
        let (name, data) = vals.last();
        let sp = four_spaces();
        assert forall|i: int| 0 <= i < l.len() implies l[i] != '\n' by {
            assert(l =~= sp + name + sp + reg_sz() + sp + data + seq!['\r']);
            if i < 4 {
            } else if i < 4 + name.len() {
                assert(l[i] == name[i - 4]);
            } else if i < 4 + name.len() + 14 {
            } else if i < 4 + name.len() + 14 + data.len() {
                assert(l[i] == data[i - 18 - name.len()]);
            }
        }
        lemma_split_lines_cons(l, rest);
        lemma_render_split(init, l + seq!['\n'] + rest);
        assert(render_values(vals) + rest =~= render_values(init) + (l + seq!['\n'] + rest));
        let init_lines = init.map_values(|v: (Seq<char>, Seq<char>)| value_line(v));
        assert(lines =~= init_lines.push(l));
        assert(init_lines + (seq![l] + split_lines(rest)) =~= lines + split_lines(rest));
    }
}

proof fn lemma_values_concat(a: Seq<Seq<char>>, b: Seq<Seq<char>>)
    ensures
        values_of_lines(a + b) == values_of_lines(a) + values_of_lines(b),
    decreases b.len(),
{
    if b.len() == 0 {
        assert(a + b =~= a);
        assert(values_of_lines(a) + values_of_lines(b) =~= values_of_lines(a));
    } else {
        lemma_values_concat(a, b.drop_last());
        assert((a + b).drop_last() =~= a + b.drop_last());
        assert((a + b).last() == b.last());
        match line_value(b.last()) {
            Some(v) => {
                assert(values_of_lines(a) + values_of_lines(b.drop_last()).push(v) =~= (
                values_of_lines(a) + values_of_lines(b.drop_last())).push(v));
            },
            None => {},
        }
    }
}

proof fn lemma_values_of_value_lines(vals: Seq<(Seq<char>, Seq<char>)>)
    requires
        forall|k: int| 0 <= k < vals.len() ==> listable_value(#[trigger] vals[k]),
    ensures
        values_of_lines(vals.map_values(|v: (Seq<char>, Seq<char>)| value_line(v))) == read_all(
            vals,
        ),
    decreases vals.len(),
{
    let lines = vals.map_values(|v: (Seq<char>, Seq<char>)| value_line(v));
    if vals.len() == 0 {
        assert(values_of_lines(lines) =~= read_all(vals));
    } else {
        let init = vals.drop_last();
        assert forall|k: int| 0 <= k < init.len() implies listable_value(#[trigger] init[k]) by {
            assert(init[k] == vals[k]);
        }
        lemma_values_of_value_lines(init);
        assert(lines.drop_last() =~= init.map_values(|v: (Seq<char>, Seq<char>)| value_line(v)));
        assert(listable_value(vals[vals.len() - 1]));
        lemma_line_value(vals.last());
        assert(read_all(init).push(read_back(vals.last())) =~= read_all(vals));
    }
}

/// The key's path line lists no value.
proof fn lemma_header_line(h: Seq<char>)
    requires
        free_of_reg_sz(h),
    ensures
        line_value(h + seq!['\r']) is None,
{
    let s = h + seq!['\r'];
    lemma_trim_bounds(s);
    lemma_lead(s);
    lemma_trail(s);
    assert(s[h.len() as int] == '\r');
    let a = lead(s);
    let b = trail(s);
    if a < s.len() {
        assert(b <= h.len());
        let t = trim(s);
        assert forall|j: int| !occurs_at(t, reg_sz(), j) by {
            if occurs_at(t, reg_sz(), j) {
                assert(h.subrange(a + j, a + j + 6) =~= reg_sz()) by {
                    assert forall|q: int| 0 <= q < 6 implies h.subrange(a + j, a + j + 6)[q]
                        == reg_sz()[q] by {
                        assert(t.subrange(j, j + 6)[q] == t[j + q]);
                        assert(t[j + q] == s[a + j + q]);
                        assert(s[a + j + q] == h[a + j + q]);
                    }
                }
                assert(occurs_at(h, reg_sz(), a + j));
            }
        }
        lemma_find_none(t, reg_sz());
    }
}

/// Reading a printed listing gives back the values that were printed, each
/// name and data trimmed.
pub proof fn lemma_listed_render(header: Seq<char>, vals: Seq<(Seq<char>, Seq<char>)>)
    requires
        listable(header, vals),
    ensures
        listed_values(render_listing(header, vals)) == read_all(vals),
{
    let cr = seq!['\r'];
    let lf = seq!['\n'];
    let tail = seq!['\r', '\n'];
    let lines = vals.map_values(|v: (Seq<char>, Seq<char>)| value_line(v));
    // the last two lines
    lemma_split_lines_cons(cr, Seq::<char>::empty());
    assert(tail =~= cr + lf + Seq::<char>::empty());
    assert(split_lines(Seq::<char>::empty()) == seq![Seq::<char>::empty()]);
    lemma_render_split(vals, tail);
    // the header line
    let hr = header + cr;
    assert forall|i: int| 0 <= i < hr.len() implies hr[i] != '\n' by {
        if i < header.len() {
            assert(hr[i] == header[i]);
        }
    }
    lemma_split_lines_cons(hr, render_values(vals) + tail);
    lemma_split_lines_cons(cr, hr + lf + (render_values(vals) + tail));
    let text = render_listing(header, vals);
    assert(text =~= cr + lf + (hr + lf + (render_values(vals) + tail)));
    let all = seq![cr] + (seq![hr] + (lines + (seq![cr] + seq![Seq::<char>::empty()])));
    assert(split_lines(text) == all);
    assert(all =~= seq![cr, hr] + lines + seq![cr, Seq::<char>::empty()]);
    // which lines hold values
    assert(trim(cr) =~= Seq::<char>::empty()) by {
        assert(cr.drop_first() =~= Seq::<char>::empty());
    }
    assert(line_value(cr) is None);
    assert(trim(Seq::<char>::empty()) =~= Seq::<char>::empty());
    assert(line_value(Seq::<char>::empty()) is None);
    assert forall|i: int| 0 <= i < Seq::<char>::empty().len() implies is_space(
        #[trigger] Seq::<char>::empty()[i],
    ) by {}
    lemma_header_line(header);
    assert(line_value(hr) is None);
    let front = seq![cr, hr];
    assert(front.drop_last() =~= seq![cr]);
    assert(seq![cr].drop_last() =~= Seq::<Seq<char>>::empty());
    assert(values_of_lines(Seq::<Seq<char>>::empty()) =~= Seq::<(Seq<char>, Seq<char>)>::empty());
    assert(seq![cr].last() == cr);
    assert(values_of_lines(seq![cr]) =~= Seq::<(Seq<char>, Seq<char>)>::empty());
    assert(front.last() == hr);
    assert(values_of_lines(front) =~= Seq::<(Seq<char>, Seq<char>)>::empty());
    let back = seq![cr, Seq::<char>::empty()];
    assert(back.drop_last() =~= seq![cr]);
    assert(back.last() == Seq::<char>::empty());
    assert(values_of_lines(back) =~= Seq::<(Seq<char>, Seq<char>)>::empty());
    lemma_values_concat(front, lines);
    lemma_values_concat(front + lines, back);
    lemma_values_of_value_lines(vals);
    assert(Seq::<(Seq<char>, Seq<char>)>::empty() + read_all(vals) + Seq::<
        (Seq<char>, Seq<char>),
    >::empty() =~= read_all(vals));
}


// ---------------------------------------------------------------------------
// Laws

proof fn lemma_free_slot_from(used: Set<u32>, k: int)
    ensures
        free_slot_from(used, k) matches Some(n) ==> {
            &&& k <= n
            &&& !used.contains(n)
            &&& forall|m: u32| k <= m < n ==> used.contains(m)
        },
    decreases u32::MAX + 1 - k,
{
    if k > u32::MAX || k < 0 {
    } else if !used.contains(k as u32) {
    } else {
        lemma_free_slot_from(used, k + 1);
    }
}

proof fn lemma_all_used(used: Set<u32>, k: int)
    requires
        1 <= k,
        free_slot_from(used, k) is None,
    ensures
        forall|m: u32| k <= m ==> used.contains(m),
    decreases u32::MAX + 1 - k,
{
    if k <= u32::MAX {
        lemma_all_used(used, k + 1);
    }
}

/// With fewer listed values than there are slot numbers, some slot is free.
proof fn lemma_some_slot_free(vals: Seq<(Seq<char>, Seq<char>)>)
    requires
        vals.len() < u32::MAX,
    ensures
        first_free_slot(used_slots(vals)) is Some,
{
    let used = used_slots(vals);
    if first_free_slot(used) is None {
        lemma_all_used(used, 1);
        let a = set_int_range(1, u32::MAX + 1);
        let f = |m: int|
            choose|k: int| 0 <= k < vals.len() && parse_u32(#[trigger] vals[k].0) == Some(m as u32);
        assert forall|m: int| a.contains(m) implies 0 <= #[trigger] f(m) < vals.len() && parse_u32(
            vals[f(m)].0,
        ) == Some(m as u32) by {
            assert(used.contains(m as u32));
        }
        assert(injective_on(f, a)) by {
            assert forall|m1: int, m2: int|
                a.contains(m1) && a.contains(m2) && #[trigger] f(m1) == #[trigger] f(m2) implies m1
                == m2 by {
                assert(parse_u32(vals[f(m1)].0) == Some(m1 as u32));
                assert(parse_u32(vals[f(m2)].0) == Some(m2 as u32));
            }
        }
        lemma_int_range(1, u32::MAX + 1);
        lemma_map_size(a, a.map(f), f);
        let b = set_int_range(0, vals.len() as int);
        lemma_int_range(0, vals.len() as int);
        assert(a.map(f).subset_of(b)) by {
            assert forall|k: int| a.map(f).contains(k) implies b.contains(k) by {
                let m = choose|m: int| a.contains(m) && f(m) == k;
            }
        }
        lemma_len_subset(a.map(f), b);
    }
}

/// Installing never writes over a value that is there: the slot that it
/// picks is the least positive number that no listed name stands for, and
/// its decimal name is no listed value's name.
pub proof fn law_added_slot_is_free(listing: Seq<char>, entry: Seq<char>)
    ensures
        addition_plan(listed_values(listing), entry) matches AdditionPlan::AddAt(slot) ==> {
            let vals = listed_values(listing);
            &&& 1 <= slot
            &&& !has_entry(vals, entry)
            &&& forall|k: int| 0 <= k < vals.len() ==> parse_u32(#[trigger] vals[k].0) != Some(slot)
            &&& forall|k: int| 0 <= k < vals.len() ==> #[trigger] vals[k].0 != decimal(slot as nat)
            &&& forall|m: u32| 1 <= m < slot ==> used_slots(vals).contains(m)
        },
{
    let vals = listed_values(listing);
    lemma_free_slot_from(used_slots(vals), 1);
    if let AdditionPlan::AddAt(slot) = addition_plan(vals, entry) {
        assert forall|k: int| 0 <= k < vals.len() implies parse_u32(#[trigger] vals[k].0) != Some(
            slot,
        ) by {
            if parse_u32(vals[k].0) == Some(slot) {
                assert(used_slots(vals).contains(slot));
            }
        }
        lemma_parse_decimal(slot);
    }
}

/// The name of the one value that holds `entry` is the name that removal
/// finds.
proof fn lemma_last_entry_unique(vals: Seq<(Seq<char>, Seq<char>)>, entry: Seq<char>, pos: int)
    requires
        0 <= pos < vals.len(),
        vals[pos].1 == entry,
        forall|k: int| 0 <= k < vals.len() && k != pos ==> #[trigger] vals[k].1 != entry,
    ensures
        last_entry_name(vals, entry) == Some(vals[pos].0),
    decreases vals.len(),
{
    if pos < vals.len() - 1 {
        let init = vals.drop_last();
        assert forall|k: int| 0 <= k < init.len() && k != pos implies #[trigger] init[k].1
            != entry by {
            assert(init[k] == vals[k]);
        }
        assert(vals.last() == vals[vals.len() - 1]);
        lemma_last_entry_unique(init, entry, pos);
    }
}

proof fn lemma_last_entry_name(vals: Seq<(Seq<char>, Seq<char>)>, entry: Seq<char>)
    ensures
        last_entry_name(vals, entry) is Some <==> has_entry(vals, entry),
        last_entry_name(vals, entry) matches Some(n) ==> exists|k: int|
            0 <= k < vals.len() && #[trigger] vals[k] == (n, entry),
    decreases vals.len(),
{
    if vals.len() > 0 {
        let init = vals.drop_last();
        lemma_last_entry_name(init, entry);
        assert(vals[vals.len() - 1] == vals.last());
        if has_entry(init, entry) {
            let k = choose|k: int| 0 <= k < init.len() && #[trigger] init[k].1 == entry;
            assert(vals[k] == init[k]);
        }
        if has_entry(vals, entry) && vals.last().1 != entry {
            let k = choose|k: int| 0 <= k < vals.len() && #[trigger] vals[k].1 == entry;
            assert(init[k] == vals[k]);
        }
        if let Some(n) = last_entry_name(init, entry) {
            let k = choose|k: int| 0 <= k < init.len() && #[trigger] init[k] == (n, entry);
            assert(vals[k] == init[k]);
        }
    }
}

/// Uninstalling deletes only what installing put there: nothing when no
/// listed value holds the entry; the whole key only when the entry is its
/// one value; otherwise a single value, which holds the entry.
pub proof fn law_removal_targets_the_entry(listing: Seq<char>, entry: Seq<char>)
    ensures
        ({
            let vals = listed_values(listing);
            let plan = removal_plan(vals, entry);
            &&& (plan == RemovalPlanView::NotPresent) == (vals.len() <= u32::MAX && !has_entry(
                vals,
                entry,
            ))
            &&& plan == RemovalPlanView::DeleteKey ==> vals.len() == 1 && vals[0].1 == entry
            &&& plan matches RemovalPlanView::DeleteValue(n) ==> vals.len() >= 2 && exists|k: int|
                0 <= k < vals.len() && #[trigger] vals[k] == (n, entry)
        }),
{
    let vals = listed_values(listing);
    lemma_last_entry_name(vals, entry);
    if let Some(n) = last_entry_name(vals, entry) {
        let k = choose|k: int| 0 <= k < vals.len() && #[trigger] vals[k] == (n, entry);
        if vals.len() == 1 {
            assert(k == 0);
        }
    }
}

/// The decimal name of a slot prints on a line of its own and reads back as
/// itself.
proof fn lemma_decimal_printable(n: u32)
    ensures
        tidy(decimal(n as nat)),
        free_of_reg_sz(decimal(n as nat)),
{
    let d = decimal(n as nat);
    lemma_decimal(n as nat);
    assert(is_digit(d[0]));
    assert(is_digit(d[d.len() - 1]));
    assert forall|i: int| 0 <= i < d.len() implies #[trigger] d[i] != '\n' by {
        assert(is_digit(d[i]));
    }
    assert forall|j: int| !occurs_at(d, reg_sz(), j) by {
        if occurs_at(d, reg_sz(), j) {
            assert(d.subrange(j, j + 6)[0] == d[j]);
            assert(is_digit(d[j]));
        }
    }
}

/// Uninstalling undoes installing.  Take a key whose values each print on a
/// line of their own, with names free of `REG_SZ`, none of whose data reads
/// back as the entry.  Installing picks a slot whose decimal name no value
/// has; whatever position the new value then takes in the listing,
/// installing again writes nothing, and uninstalling deletes the whole key
/// when the entry was its only value, and otherwise only the value of that
/// name, so what is left is `vals`.
pub proof fn law_uninstall_undoes_install(
    header: Seq<char>,
    vals: Seq<(Seq<char>, Seq<char>)>,
    entry: Seq<char>,
    pos: int,
)
    requires
        listable(header, vals),
        trim(entry) == entry,
        no_line_feed(entry),
        !has_entry(read_all(vals), entry),
        0 <= pos <= vals.len(),
        vals.len() < u32::MAX,
    ensures
        addition_plan(
            listed_values(render_listing(header, vals)),
            entry,
        ) matches AdditionPlan::AddAt(slot) && {
            let name = decimal(slot as nat);
            let after = vals.insert(pos, (name, entry));
            &&& listed_values(render_listing(header, vals)) == read_all(vals)
            &&& listed_values(render_listing(header, after)) == read_all(vals).insert(
                pos,
                (name, entry),
            )
            &&& forall|k: int|
                0 <= k < vals.len() ==> #[trigger] vals[k].0 != name && trim(vals[k].0) != name
            &&& after.remove(pos) == vals
            &&& addition_plan(listed_values(render_listing(header, after)), entry)
                == AdditionPlan::AlreadyPresent
            &&& removal_plan(listed_values(render_listing(header, after)), entry) == (if vals.len()
                == 0 {
                RemovalPlanView::DeleteKey
            } else {
                RemovalPlanView::DeleteValue(name)
            })
        },
{
    let rv = read_all(vals);
    lemma_listed_render(header, vals);
    lemma_some_slot_free(rv);
    law_added_slot_is_free(render_listing(header, vals), entry);
    let slot = match addition_plan(rv, entry) {
        AdditionPlan::AddAt(n) => n,
        _ => 0,
    };
    assert(addition_plan(rv, entry) == AdditionPlan::AddAt(slot));
    let name = decimal(slot as nat);
    let after = vals.insert(pos, (name, entry));
    lemma_decimal_printable(slot);
    assert(trim(name) == name);
    assert forall|k: int| 0 <= k < vals.len() implies #[trigger] vals[k].0 != name && trim(
        vals[k].0,
    ) != name by {
        assert(rv[k] == read_back(vals[k]));
        assert(listed_values(render_listing(header, vals))[k].0 != name);
        assert(trim(vals[k].0) != name);
        if vals[k].0 == name {
            assert(trim(vals[k].0) == trim(name));
        }
    }
    assert(listable_value((name, entry)));
    assert forall|k: int| 0 <= k < after.len() implies listable_value(#[trigger] after[k]) by {
        if k < pos {
            assert(after[k] == vals[k]);
        } else if k > pos {
            assert(after[k] == vals[k - 1]);
        }
    }
    lemma_listed_render(header, after);
    let ra = read_all(after);
    assert(ra =~= rv.insert(pos, (name, entry))) by {
        assert forall|k: int| 0 <= k < ra.len() implies ra[k] == rv.insert(pos, (name, entry))[k] by {
            if k < pos {
                assert(after[k] == vals[k]);
            } else if k > pos {
                assert(after[k] == vals[k - 1]);
            }
        }
    }
    assert(after.remove(pos) =~= vals);
    assert(ra[pos].1 == entry);
    assert(has_entry(ra, entry));
    assert forall|k: int| 0 <= k < ra.len() && k != pos implies #[trigger] ra[k].1 != entry by {
        if k < pos {
            assert(ra[k] == rv[k]);
        } else {
            assert(ra[k] == rv[k - 1]);
        }
    }
    lemma_last_entry_unique(ra, entry, pos);
}

/// uBlock Origin Lite's entry prints on a line of its own.
proof fn lemma_entry_printable()
    ensures
        tidy(ubol_entry_spec()),
{
    reveal_strlit("ddkjiahejlhfcafbddmgiahcphecmpfh");
    reveal_strlit(";");
    reveal_strlit("https://clients2.google.com/service/update2/crx");
    let e = ubol_entry_spec();
    assert(e.len() == 80);
    assert(e[0] == 'd');
    assert(e[79] == 'x');
    assert forall|i: int| 0 <= i < e.len() implies #[trigger] e[i] != '\n' by {
        if i < 32 {
            assert(e[i] == UBOL_ID@[i]);
        } else if i > 32 {
            assert(e[i] == WEBSTORE_UPDATE_URL@[i - 33]);
        }
    }
}

/// `law_uninstall_undoes_install` for uBlock Origin Lite's own entry.
pub proof fn law_uninstall_undoes_install_of_ublock(
    header: Seq<char>,
    vals: Seq<(Seq<char>, Seq<char>)>,
    pos: int,
)
    requires
        listable(header, vals),
        !has_entry(read_all(vals), ubol_entry_spec()),
        0 <= pos <= vals.len(),
        vals.len() < u32::MAX,
    ensures
        addition_plan(
            listed_values(render_listing(header, vals)),
            ubol_entry_spec(),
        ) matches AdditionPlan::AddAt(slot) && {
            let name = decimal(slot as nat);
            let after = vals.insert(pos, (name, ubol_entry_spec()));
            &&& listed_values(render_listing(header, vals)) == read_all(vals)
            &&& listed_values(render_listing(header, after)) == read_all(vals).insert(
                pos,
                (name, ubol_entry_spec()),
            )
            &&& forall|k: int|
                0 <= k < vals.len() ==> #[trigger] vals[k].0 != name && trim(vals[k].0) != name
            &&& after.remove(pos) == vals
            &&& addition_plan(listed_values(render_listing(header, after)), ubol_entry_spec())
                == AdditionPlan::AlreadyPresent
            &&& removal_plan(listed_values(render_listing(header, after)), ubol_entry_spec()) == (
            if vals.len() == 0 {
                RemovalPlanView::DeleteKey
            } else {
                RemovalPlanView::DeleteValue(name)
            })
        },
{
    lemma_entry_printable();
    assert(trim(ubol_entry_spec()) == ubol_entry_spec());
    law_uninstall_undoes_install(header, vals, ubol_entry_spec(), pos);
}

} // verus!
