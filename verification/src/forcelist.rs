//! Chrome's `ExtensionInstallForcelist` policy key: reading what `reg query`
//! lists, deciding where uBlock Origin Lite's value goes or which value to
//! delete, and the `reg` arguments that carry the decision out.

use vstd::prelude::*;
use std::collections::BTreeSet;
use crate::strings::{decode_lossy, string_of, utf8_lossy};
use crate::text::{
    chars_of, find, find_chars, lemma_find_occurs, parse_u32, parse_u32_chars, push_decimal, decimal,
    same_chars, split_lines, split_lines_exec, sub_chars, trim, trim_chars, views,
};

verus! {

broadcast use vstd::std_specs::btree::group_btree_axioms, vstd::laws_cmp::group_laws_cmp,
    vstd::string::group_string_axioms;

/// The Web Store id of uBlock Origin Lite.
pub const UBOL_ID: &'static str = "ddkjiahejlhfcafbddmgiahcphecmpfh";

/// The update URL that makes Chrome fetch the extension from the Web Store.
pub const WEBSTORE_UPDATE_URL: &'static str = "https://clients2.google.com/service/update2/crx";

/// The policy key, under the current user's hive (no administrator rights).
pub const FORCELIST_KEY: &'static str = "HKCU\\Software\\Policies\\Google\\Chrome\\ExtensionInstallForcelist";

/// The type marker that `reg query` prints between a value's name and data.
pub open spec fn reg_sz() -> Seq<char> {
    seq!['R', 'E', 'G', '_', 'S', 'Z']
}

pub fn reg_sz_chars() -> (v: Vec<char>)
    ensures
        v@ == reg_sz(),
{
    let v = vec!['R', 'E', 'G', '_', 'S', 'Z'];
    assert(v@ =~= reg_sz());
    v
}

/// The value that one line of `reg query` output lists: the line is trimmed
/// and cut at its first `REG_SZ`; the trimmed text before it is the value's
/// name, the trimmed text after it the value's data.  A line without `REG_SZ`
/// lists no value.
pub open spec fn line_value(line: Seq<char>) -> Option<(Seq<char>, Seq<char>)> {
    let t = trim(line);
    match find(t, reg_sz()) {
        Some(i) => Some((trim(t.take(i)), trim(t.skip(i + 6)))),
        None => None,
    }
}

/// The values that a sequence of lines lists, in order.
pub open spec fn values_of_lines(lines: Seq<Seq<char>>) -> Seq<(Seq<char>, Seq<char>)>
    decreases lines.len(),
{
    if lines.len() == 0 {
        seq![]
    } else {
        let init = values_of_lines(lines.drop_last());
        match line_value(lines.last()) {
            Some(v) => init.push(v),
            None => init,
        }
    }
}

/// The `(name, data)` pairs that a `reg query` output lists.
pub open spec fn listed_values(text: Seq<char>) -> Seq<(Seq<char>, Seq<char>)> {
    values_of_lines(split_lines(text))
}

pub open spec fn pair_views(s: Seq<(Vec<char>, Vec<char>)>) -> Seq<(Seq<char>, Seq<char>)> {
    s.map_values(|p: (Vec<char>, Vec<char>)| (p.0@, p.1@))
}

fn line_value_exec(line: &Vec<char>) -> (r: Option<(Vec<char>, Vec<char>)>)
    ensures
        match r {
            Some(p) => line_value(line@) == Some((p.0@, p.1@)),
            None => line_value(line@) is None,
        },
{
    let t = trim_chars(line);
    let pat = reg_sz_chars();
    match find_chars(&t, &pat) {
        Some(i) => {
            proof {
                lemma_find_occurs(t@, pat@);
            }
            let head = sub_chars(&t, 0, i);
            let tail = sub_chars(&t, i + 6, t.len());
            assert(head@ =~= t@.take(i as int));
            assert(tail@ =~= t@.skip(i + 6));
            Some((trim_chars(&head), trim_chars(&tail)))
        },
        None => None,
    }
}

/// The values listed in `text`.
fn listed_values_exec(text: &Vec<char>) -> (r: Vec<(Vec<char>, Vec<char>)>)
    ensures
        pair_views(r@) == listed_values(text@),
{
    let lines = split_lines_exec(text);
    let mut vals: Vec<(Vec<char>, Vec<char>)> = Vec::new();
    let mut k: usize = 0;
    assert(views(lines@).take(0) =~= Seq::<Seq<char>>::empty());
    assert(pair_views(vals@) =~= Seq::<(Seq<char>, Seq<char>)>::empty());
    while k < lines.len()
        invariant
            k <= lines.len(),
            views(lines@) == split_lines(text@),
            pair_views(vals@) == values_of_lines(views(lines@).take(k as int)),
        decreases lines.len() - k,
    {
        let ghost ls = views(lines@);
        assert(ls.take(k + 1).drop_last() =~= ls.take(k as int));
        assert(ls.take(k + 1).last() == lines@[k as int]@);
        match line_value_exec(&lines[k]) {
            Some(p) => {
                let ghost pv = (p.0@, p.1@);
                vals.push(p);
                assert(pair_views(vals@) =~= values_of_lines(ls.take(k as int)).push(pv));
            },
            None => {},
        }
        k += 1;
    }
    assert(views(lines@).take(lines.len() as int) =~= views(lines@));
    vals
}

// ---------------------------------------------------------------------------
// Adding the entry

/// Some listed value holds `entry` as its data.
pub open spec fn has_entry(vals: Seq<(Seq<char>, Seq<char>)>, entry: Seq<char>) -> bool {
    exists|k: int| 0 <= k < vals.len() && #[trigger] vals[k].1 == entry
}

/// The slot numbers that the listed values' names stand for.
pub open spec fn used_slots(vals: Seq<(Seq<char>, Seq<char>)>) -> Set<u32> {
    Set::new(|n: u32| exists|k: int| 0 <= k < vals.len() && parse_u32(#[trigger] vals[k].0) == Some(n))
}

/// The least slot number from `k` on that `used` does not hold.
pub open spec fn free_slot_from(used: Set<u32>, k: int) -> Option<u32>
    decreases u32::MAX + 1 - k,
{
    if k > u32::MAX || k < 0 {
        None
    } else if !used.contains(k as u32) {
        Some(k as u32)
    } else {
        free_slot_from(used, k + 1)
    }
}

/// The least positive slot number that `used` does not hold.
pub open spec fn first_free_slot(used: Set<u32>) -> Option<u32> {
    free_slot_from(used, 1)
}

/// What installing does to the policy key.
#[derive(Debug, Clone, Copy, PartialEq, Eq, Structural)]
pub enum AdditionPlan {
    /// The entry is listed already: nothing to write.
    AlreadyPresent,
    /// Write the entry as the value named by this slot number.
    AddAt(u32),
    /// Every slot number from 1 to `u32::MAX` is taken.
    NoFreeSlot,
}

pub open spec fn addition_plan(vals: Seq<(Seq<char>, Seq<char>)>, entry: Seq<char>) -> AdditionPlan {
    if has_entry(vals, entry) {
        AdditionPlan::AlreadyPresent
    } else {
        match first_free_slot(used_slots(vals)) {
            Some(n) => AdditionPlan::AddAt(n),
            None => AdditionPlan::NoFreeSlot,
        }
    }
}


/// Whether `entry` is listed, and the slot numbers that the names stand for.
fn scan_for_addition(vals: &Vec<(Vec<char>, Vec<char>)>, entry: &Vec<char>) -> (r: (
    bool,
    BTreeSet<u32>,
))
    ensures
        r.0 == has_entry(pair_views(vals@), entry@),
        r.1@ == used_slots(pair_views(vals@)),
{
    let ghost pv = pair_views(vals@);
    let mut found = false;
    let mut used: BTreeSet<u32> = BTreeSet::new();
    let mut k: usize = 0;
    assert(used@ =~= used_slots(pv.take(0)));
    while k < vals.len()
        invariant
            k <= vals.len(),
            pv == pair_views(vals@),
            found == has_entry(pv.take(k as int), entry@),
            used@ == used_slots(pv.take(k as int)),
        decreases vals.len() - k,
    {
        let ghost before = pv.take(k as int);
        let ghost after = pv.take(k + 1);
        assert(after[k as int] == pv[k as int]);
        assert forall|j: int| 0 <= j < k implies #[trigger] after[j] == before[j] by {}
        let same = same_chars(&vals[k].1, entry);
        let slot = parse_u32_chars(&vals[k].0);
        match slot {
            Some(n) => {
                used.insert(n);
            },
            None => {},
        }
        assert(used@ =~= used_slots(after)) by {
            assert forall|n: u32| used@.contains(n) implies used_slots(after).contains(n) by {
                if used_slots(before).contains(n) {
                    let j = choose|j: int| 0 <= j < before.len() && parse_u32(#[trigger] before[j].0) == Some(n);
                    assert(after[j] == before[j]);
                } else {
                    assert(parse_u32(after[k as int].0) == Some(n));
                }
            }
            assert forall|n: u32| used_slots(after).contains(n) implies used@.contains(n) by {
                let j = choose|j: int| 0 <= j < after.len() && parse_u32(#[trigger] after[j].0) == Some(n);
                if j < k {
                    assert(before[j] == after[j]);
                }
            }
        }
        if same {
            assert(after[k as int].1 == entry@);
        }
        assert(found || same <==> has_entry(after, entry@)) by {
            if has_entry(after, entry@) {
                let j = choose|j: int| 0 <= j < after.len() && #[trigger] after[j].1 == entry@;
                if j < k {
                    assert(before[j] == after[j]);
                }
            }
            if found {
                let j = choose|j: int| 0 <= j < before.len() && #[trigger] before[j].1 == entry@;
                assert(after[j] == before[j]);
            }
        }
        found = found || same;
        k += 1;
    }
    assert(pv.take(vals.len() as int) =~= pv);
    (found, used)
}

/// The least positive slot number that `used` does not hold.
fn first_free_slot_exec(used: &BTreeSet<u32>) -> (r: Option<u32>)
    ensures
        r == first_free_slot(used@),
{
    let mut idx: u32 = 1;
    while used.contains(&idx)
        invariant
            1 <= idx,
            first_free_slot(used@) == free_slot_from(used@, idx as int),
        decreases u32::MAX - idx,
    {
        if idx == u32::MAX {
            assert(free_slot_from(used@, idx + 1) == None::<u32>);
            return None;
        }
        idx += 1;
    }
    Some(idx)
}

/// Where uBlock Origin Lite's value goes, given what `reg query` listed.
pub fn plan_addition(listing: &str, entry: &str) -> (r: AdditionPlan)
    ensures
        r == addition_plan(listed_values(listing@), entry@),
{
    let text = chars_of(listing);
    let want = chars_of(entry);
    let vals = listed_values_exec(&text);
    let (found, used) = scan_for_addition(&vals, &want);
    if found {
        return AdditionPlan::AlreadyPresent;
    }
    match first_free_slot_exec(&used) {
        Some(n) => AdditionPlan::AddAt(n),
        None => AdditionPlan::NoFreeSlot,
    }
}

/// `plan_addition` on the bytes that `reg query` wrote, decoded as
/// `String::from_utf8_lossy` decodes them.
pub fn plan_addition_for_output(stdout: &[u8], entry: &str) -> (r: AdditionPlan)
    ensures
        r == addition_plan(listed_values(utf8_lossy(stdout@)), entry@),
{
    let listing = decode_lossy(stdout);
    plan_addition(listing.as_str(), entry)
}

// ---------------------------------------------------------------------------
// Removing the entry

/// The name of the last listed value that holds `entry` as its data.
pub open spec fn last_entry_name(vals: Seq<(Seq<char>, Seq<char>)>, entry: Seq<char>) -> Option<
    Seq<char>,
>
    decreases vals.len(),
{
    if vals.len() == 0 {
        None
    } else if vals.last().1 == entry {
        Some(vals.last().0)
    } else {
        last_entry_name(vals.drop_last(), entry)
    }
}

/// What uninstalling does to the policy key.
#[derive(Debug, Clone, PartialEq, Eq)]
pub enum RemovalPlan {
    /// The entry is not listed: nothing to delete.
    NotPresent,
    /// The entry is the only value: delete the whole key.
    DeleteKey,
    /// Other values are listed too: delete only the value of this name.
    DeleteValue(String),
    /// More values are listed than a `u32` counts.
    TooManyValues,
}

pub enum RemovalPlanView {
    NotPresent,
    DeleteKey,
    DeleteValue(Seq<char>),
    TooManyValues,
}

impl View for RemovalPlan {
    type V = RemovalPlanView;

    open spec fn view(&self) -> RemovalPlanView {
        match self {
            RemovalPlan::NotPresent => RemovalPlanView::NotPresent,
            RemovalPlan::DeleteKey => RemovalPlanView::DeleteKey,
            RemovalPlan::DeleteValue(name) => RemovalPlanView::DeleteValue(name@),
            RemovalPlan::TooManyValues => RemovalPlanView::TooManyValues,
        }
    }
}

pub open spec fn removal_plan(vals: Seq<(Seq<char>, Seq<char>)>, entry: Seq<char>) -> RemovalPlanView {
    if vals.len() > u32::MAX {
        RemovalPlanView::TooManyValues
    } else {
        match last_entry_name(vals, entry) {
            None => RemovalPlanView::NotPresent,
            Some(name) => if vals.len() <= 1 {
                RemovalPlanView::DeleteKey
            } else {
                RemovalPlanView::DeleteValue(name)
            },
        }
    }
}

/// Which value to delete, given what `reg query` listed.
pub fn plan_removal(listing: &str, entry: &str) -> (r: RemovalPlan)
    ensures
        r@ == removal_plan(listed_values(listing@), entry@),
{
    let text = chars_of(listing);
    let want = chars_of(entry);
    let vals = listed_values_exec(&text);
    let ghost pv = pair_views(vals@);
    let mut ours: Option<usize> = None;
    let mut k: usize = 0;
    while k < vals.len()
        invariant
            k <= vals.len(),
            pv == pair_views(vals@),
            match ours {
                Some(j) => j < k && last_entry_name(pv.take(k as int), want@) == Some(pv[j as int].0),
                None => last_entry_name(pv.take(k as int), want@) is None,
            },
        decreases vals.len() - k,
    {
        assert(pv.take(k + 1).drop_last() =~= pv.take(k as int));
        assert(pv.take(k + 1).last() == pv[k as int]);
        if same_chars(&vals[k].1, &want) {
            ours = Some(k);
        }
        k += 1;
    }
    assert(pv.take(vals.len() as int) =~= pv);
    if vals.len() > 0xffff_ffff {
        return RemovalPlan::TooManyValues;
    }
    match ours {
        None => RemovalPlan::NotPresent,
        Some(j) => if vals.len() <= 1 {
            RemovalPlan::DeleteKey
        } else {
            RemovalPlan::DeleteValue(string_of(&vals[j].0))
        },
    }
}

/// `plan_removal` on the bytes that `reg query` wrote, decoded as
/// `String::from_utf8_lossy` decodes them.
pub fn plan_removal_for_output(stdout: &[u8], entry: &str) -> (r: RemovalPlan)
    ensures
        r@ == removal_plan(listed_values(utf8_lossy(stdout@)), entry@),
{
    let listing = decode_lossy(stdout);
    plan_removal(listing.as_str(), entry)
}


// ---------------------------------------------------------------------------
// The `reg` command lines

pub open spec fn string_views(v: Seq<String>) -> Seq<Seq<char>> {
    v.map_values(|s: String| s@)
}

/// The policy value's data: the extension id and its update URL, joined by `;`.
pub open spec fn ubol_entry_spec() -> Seq<char> {
    UBOL_ID@ + ";"@ + WEBSTORE_UPDATE_URL@
}

pub fn ubol_entry() -> (s: String)
    ensures
        s@ == ubol_entry_spec(),
{
    let mut s = UBOL_ID.to_string();
    s.append(";");
    s.append(WEBSTORE_UPDATE_URL);
    s
}

/// The decimal name of slot `n`.
pub fn slot_name(n: u32) -> (s: String)
    ensures
        s@ == decimal(n as nat),
{
    let mut v: Vec<char> = Vec::new();
    push_decimal(&mut v, n as u128);
    assert(v@ =~= decimal(n as nat));
    string_of(&v)
}

pub open spec fn query_args_spec() -> Seq<Seq<char>> {
    seq!["query"@, FORCELIST_KEY@]
}

/// `reg query <key>`.
pub fn query_args() -> (r: Vec<String>)
    ensures
        string_views(r@) == query_args_spec(),
{
    let r = vec!["query".to_string(), FORCELIST_KEY.to_string()];
    assert(string_views(r@) =~= query_args_spec());
    r
}

pub open spec fn add_args_spec(slot: u32, entry: Seq<char>) -> Seq<Seq<char>> {
    seq![
        "add"@,
        FORCELIST_KEY@,
        "/v"@,
        decimal(slot as nat),
        "/t"@,
        "REG_SZ"@,
        "/d"@,
        entry,
        "/f"@,
    ]
}

/// `reg add <key> /v <slot> /t REG_SZ /d <entry> /f`.
pub fn add_args(slot: u32, entry: &str) -> (r: Vec<String>)
    ensures
        string_views(r@) == add_args_spec(slot, entry@),
{
    let r = vec![
        "add".to_string(),
        FORCELIST_KEY.to_string(),
        "/v".to_string(),
        slot_name(slot),
        "/t".to_string(),
        "REG_SZ".to_string(),
        "/d".to_string(),
        entry.to_string(),
        "/f".to_string(),
    ];
    assert(string_views(r@) =~= add_args_spec(slot, entry@));
    r
}

pub open spec fn removal_args_spec(plan: RemovalPlanView) -> Option<Seq<Seq<char>>> {
    match plan {
        RemovalPlanView::DeleteKey => Some(seq!["delete"@, FORCELIST_KEY@, "/f"@]),
        RemovalPlanView::DeleteValue(name) => Some(
            seq!["delete"@, FORCELIST_KEY@, "/v"@, name, "/f"@],
        ),
        _ => None,
    }
}

/// `reg delete <key> /f` for the whole key, `reg delete <key> /v <name> /f`
/// for one value; nothing for a plan that deletes nothing.
pub fn removal_args(plan: &RemovalPlan) -> (r: Option<Vec<String>>)
    ensures
        match r {
            Some(v) => removal_args_spec(plan@) == Some(string_views(v@)),
            None => removal_args_spec(plan@) is None,
        },
{
    match plan {
        RemovalPlan::DeleteKey => {
            let r = vec!["delete".to_string(), FORCELIST_KEY.to_string(), "/f".to_string()];
            assert(string_views(r@) =~= seq!["delete"@, FORCELIST_KEY@, "/f"@]);
            Some(r)
        },
        RemovalPlan::DeleteValue(name) => {
            let r = vec![
                "delete".to_string(),
                FORCELIST_KEY.to_string(),
                "/v".to_string(),
                name.clone(),
                "/f".to_string(),
            ];
            assert(string_views(r@) =~= seq!["delete"@, FORCELIST_KEY@, "/v"@, name@, "/f"@]);
            Some(r)
        },
        _ => None,
    }
}

} // verus!
