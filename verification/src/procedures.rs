//! The registry of procedures: for each working directory an ordered list of
//! named commands.
//!
//! The order of a list is the order in which it is shown, and the basis on
//! which a new procedure gets its name when none is given: `cmd1`, `cmd2`
//! and so on, the lowest that the directory does not use yet.

use vstd::prelude::*;
use vstd::string::*;
use crate::text::{decimal, lemma_decimal_injective, push_decimal};

verus! {

/// A saved command.
#[derive(Debug, PartialEq, Eq)]
pub struct Procedure {
    pub command: String,
}

impl View for Procedure {
    type V = Seq<char>;

    open spec fn view(&self) -> Seq<char> {
        self.command@
    }
}

impl DeepView for Procedure {
    type V = Seq<char>;

    open spec fn deep_view(&self) -> Seq<char> {
        self.command@
    }
}

impl Clone for Procedure {
    fn clone(&self) -> (r: Self)
        ensures
            r@ == self@,
    {
        Procedure { command: self.command.clone() }
    }
}

/// The path of a working directory.
pub type Workdir = String;

/// The mathematical value of one directory's list: pairs of alias and
/// command, in order.
pub type ProcList = Seq<(Seq<char>, Seq<char>)>;

/// The mathematical value of a registry.
pub type Registry = Map<Seq<char>, ProcList>;

/// The list that `m` holds for `workdir`; empty where it holds none.
pub open spec fn list_of(m: Registry, workdir: Seq<char>) -> ProcList {
    if m.contains_key(workdir) {
        m[workdir]
    } else {
        Seq::empty()
    }
}

/// Whether `alias` names a procedure of `list`.
pub open spec fn alias_used(list: ProcList, alias: Seq<char>) -> bool {
    exists|i: int| 0 <= i < list.len() && (#[trigger] list[i]).0 == alias
}

/// Whether no alias names two procedures of `list`.
pub open spec fn aliases_unique(list: ProcList) -> bool {
    forall|i: int, j: int|
        0 <= i < j < list.len() ==> (#[trigger] list[i]).0 != (#[trigger] list[j]).0
}

/// The `n`-th automatic alias: `cmd` and the number in base ten.
pub open spec fn alias_label(n: nat) -> Seq<char> {
    "cmd"@ + decimal(n)
}

/// The first number from `n` on whose label `list` does not use, looking at
/// no more than `budget` labels: after those the next number is taken as it
/// is.
pub open spec fn first_unused_from(list: ProcList, n: nat, budget: nat) -> nat
    decreases budget,
{
    if budget == 0 || !alias_used(list, alias_label(n)) {
        n
    } else {
        first_unused_from(list, n + 1, (budget - 1) as nat)
    }
}

/// The number of the alias that a new procedure of `list` gets where none is
/// given. A list of `k` procedures uses at most `k` labels, so looking at
/// `k` of them is enough.
pub open spec fn auto_alias_number(list: ProcList) -> nat {
    first_unused_from(list, 1, list.len())
}

/// Whether a new procedure of `list` may bear `alias`: any alias that the
/// list does not use, and the automatic one.
pub open spec fn alias_free(list: ProcList, alias: Option<Seq<char>>) -> bool {
    alias matches Some(a) ==> !alias_used(list, a)
}

/// Whether every list of `m` keeps its aliases apart.
pub open spec fn all_unique(m: Registry) -> bool {
    forall|w: Seq<char>| m.contains_key(w) ==> aliases_unique(#[trigger] m[w])
}

/// The alias that a new procedure of `list` gets: the one given, or the
/// automatic one.
pub open spec fn new_alias(list: ProcList, alias: Option<Seq<char>>) -> Seq<char> {
    match alias {
        Some(a) => a,
        None => alias_label(auto_alias_number(list)),
    }
}

/// The registry after a procedure is added to `workdir`: its list, which
/// starts empty where the directory is new, has the procedure at its end.
/// This is for an alias that is free.
pub open spec fn with_command(
    m: Registry,
    alias: Option<Seq<char>>,
    workdir: Seq<char>,
    command: Seq<char>,
) -> Registry {
    let list = list_of(m, workdir);
    m.insert(workdir, list.push((new_alias(list, alias), command)))
}

/// The registry without the procedure at `index` of `workdir`; the registry
/// itself where there is no such procedure.
pub open spec fn without_item(m: Registry, workdir: Seq<char>, index: int) -> Registry {
    if m.contains_key(workdir) && 0 <= index < m[workdir].len() {
        m.insert(workdir, m[workdir].remove(index))
    } else {
        m
    }
}

/// The registry with `command` as the command of the procedure at `index` of
/// `workdir`, under the alias it had; the registry itself where there is no
/// such procedure.
pub open spec fn with_item_command(
    m: Registry,
    workdir: Seq<char>,
    index: int,
    command: Seq<char>,
) -> Registry {
    if m.contains_key(workdir) && 0 <= index < m[workdir].len() {
        m.insert(workdir, m[workdir].update(index, (m[workdir][index].0, command)))
    } else {
        m
    }
}

/// Two labels are the same only for the same number.
pub proof fn lemma_alias_label_injective(a: nat, b: nat)
    requires
        alias_label(a) == alias_label(b),
    ensures
        a == b,
{
    let p = "cmd"@;
    assert(decimal(a) =~= alias_label(a).subrange(p.len() as int, alias_label(a).len() as int));
    assert(decimal(b) =~= alias_label(b).subrange(p.len() as int, alias_label(b).len() as int));
    lemma_decimal_injective(a, b);
}

/// A list uses no more labels than it has procedures.
pub proof fn lemma_used_labels_bounded(list: ProcList, labels: Set<nat>)
    requires
        labels.finite(),
        forall|m: nat| labels.contains(m) ==> alias_used(list, #[trigger] alias_label(m)),
    ensures
        labels.len() <= list.len(),
    decreases list.len(),
{
    if labels.len() == 0 {
    } else if list.len() == 0 {
        let m = labels.choose();
        assert(alias_used(list, alias_label(m)));
    } else {
        let rest = list.drop_last();
        let last = list.last().0;
        if exists|m: nat| labels.contains(m) && alias_label(m) == last {
            let m0 = choose|m: nat| labels.contains(m) && alias_label(m) == last;
            let others = labels.remove(m0);
            assert forall|m: nat| others.contains(m) implies alias_used(
                rest,
                #[trigger] alias_label(m),
            ) by {
                assert(alias_used(list, alias_label(m)));
                let i = choose|i: int| 0 <= i < list.len() && (#[trigger] list[i]).0 == alias_label(m);
                if i == list.len() - 1 {
                    lemma_alias_label_injective(m, m0);
                }
                assert(rest[i] == list[i]);
            }
            lemma_used_labels_bounded(rest, others);
        } else {
            assert forall|m: nat| labels.contains(m) implies alias_used(
                rest,
                #[trigger] alias_label(m),
            ) by {
                assert(alias_used(list, alias_label(m)));
                let i = choose|i: int| 0 <= i < list.len() && (#[trigger] list[i]).0 == alias_label(m);
                assert(rest[i] == list[i]);
            }
            lemma_used_labels_bounded(rest, labels);
        }
    }
}

/// The numbers from `lo` up to, not including, `hi`.
pub open spec fn numbers(lo: nat, hi: nat) -> Set<nat> {
    Set::new(|m: nat| lo <= m < hi)
}

proof fn lemma_numbers(lo: nat, hi: nat)
    requires
        lo <= hi,
    ensures
        numbers(lo, hi).finite(),
        numbers(lo, hi).len() == hi - lo,
    decreases hi - lo,
{
    if lo == hi {
        assert(numbers(lo, hi) =~= Set::<nat>::empty());
    } else {
        lemma_numbers(lo, (hi - 1) as nat);
        assert(numbers(lo, hi) =~= numbers(lo, (hi - 1) as nat).insert((hi - 1) as nat));
    }
}

proof fn lemma_first_unused_from(list: ProcList, n: nat, budget: nat)
    ensures
        n <= first_unused_from(list, n, budget) <= n + budget,
        forall|m: nat|
            n <= m < first_unused_from(list, n, budget) ==> alias_used(
                list,
                #[trigger] alias_label(m),
            ),
        first_unused_from(list, n, budget) < n + budget ==> !alias_used(
            list,
            alias_label(first_unused_from(list, n, budget)),
        ),
    decreases budget,
{
    if budget == 0 || !alias_used(list, alias_label(n)) {
    } else {
        lemma_first_unused_from(list, n + 1, (budget - 1) as nat);
    }
}

/// The automatic alias is the lowest unused one: the list does not use its
/// label, and uses the label of every lower number from one on.
pub proof fn lemma_auto_alias_lowest_unused(list: ProcList)
    ensures
        auto_alias_number(list) >= 1,
        !alias_used(list, alias_label(auto_alias_number(list))),
        forall|m: nat|
            1 <= m < auto_alias_number(list) ==> alias_used(list, #[trigger] alias_label(m)),
{
    let n = auto_alias_number(list);
    lemma_first_unused_from(list, 1, list.len());
    if n == 1 + list.len() && alias_used(list, alias_label(n)) {
        let all = numbers(1, n + 1);
        lemma_numbers(1, n + 1);
        lemma_used_labels_bounded(list, all);
    }
}

/// Adding a procedure under an alias that the list does not use keeps the
/// aliases of the list apart; the automatic alias is such a one.
pub proof fn lemma_add_keeps_aliases_unique(
    list: ProcList,
    alias: Option<Seq<char>>,
    command: Seq<char>,
)
    requires
        aliases_unique(list),
        alias_free(list, alias),
    ensures
        aliases_unique(list.push((new_alias(list, alias), command))),
{
    lemma_auto_alias_lowest_unused(list);
    let a = new_alias(list, alias);
    let next = list.push((a, command));
    assert forall|i: int, j: int| 0 <= i < j < next.len() implies (#[trigger] next[i]).0 != (
    #[trigger] next[j]).0 by {
        if j == list.len() {
            assert(next[i] == list[i]);
        } else {
            assert(next[i] == list[i]);
            assert(next[j] == list[j]);
        }
    }
}

/// Removing a procedure, or giving one another command, keeps the aliases
/// of a list apart.
pub proof fn lemma_edits_keep_aliases_unique(list: ProcList, index: int, command: Seq<char>)
    requires
        aliases_unique(list),
        0 <= index < list.len(),
    ensures
        aliases_unique(list.remove(index)),
        aliases_unique(list.update(index, (list[index].0, command))),
{
    let less = list.remove(index);
    assert forall|i: int, j: int| 0 <= i < j < less.len() implies (#[trigger] less[i]).0 != (
    #[trigger] less[j]).0 by {
        let a = if i < index {
            i
        } else {
            i + 1
        };
        let b = if j < index {
            j
        } else {
            j + 1
        };
        assert(less[i] == list[a]);
        assert(less[j] == list[b]);
    }
    let other = list.update(index, (list[index].0, command));
    assert forall|i: int, j: int| 0 <= i < j < other.len() implies (#[trigger] other[i]).0 != (
    #[trigger] other[j]).0 by {
        assert(other[i].0 == list[i].0);
        assert(other[j].0 == list[j].0);
    }
}

/// Whether no directory stands twice in `es`.
pub open spec fn distinct_keys(es: Seq<(Seq<char>, ProcList)>) -> bool {
    forall|i: int, j: int| 0 <= i < j < es.len() ==> (#[trigger] es[i]).0 != (#[trigger] es[j]).0
}

/// Whether `es` has an entry for `w`.
pub open spec fn has_key(es: Seq<(Seq<char>, ProcList)>, w: Seq<char>) -> bool {
    exists|i: int| 0 <= i < es.len() && (#[trigger] es[i]).0 == w
}

/// Where `es` has its entry for `w`.
pub open spec fn index_of(es: Seq<(Seq<char>, ProcList)>, w: Seq<char>) -> int {
    choose|i: int| 0 <= i < es.len() && (#[trigger] es[i]).0 == w
}

/// Whether every list of `es` keeps its aliases apart.
pub open spec fn lists_unique(es: Seq<(Seq<char>, ProcList)>) -> bool {
    forall|i: int| 0 <= i < es.len() ==> aliases_unique((#[trigger] es[i]).1)
}

/// Whether `es` can stand for a registry: no directory twice, and no alias
/// twice in a list.
pub open spec fn well_kept(es: Seq<(Seq<char>, ProcList)>) -> bool {
    distinct_keys(es) && lists_unique(es)
}

/// The map that the entries `es` stand for.
pub open spec fn entries_map(es: Seq<(Seq<char>, ProcList)>) -> Registry {
    Map::new(|w: Seq<char>| has_key(es, w), |w: Seq<char>| es[index_of(es, w)].1)
}

proof fn lemma_entry(es: Seq<(Seq<char>, ProcList)>, i: int)
    requires
        distinct_keys(es),
        0 <= i < es.len(),
    ensures
        has_key(es, es[i].0),
        index_of(es, es[i].0) == i,
        entries_map(es).contains_key(es[i].0),
        entries_map(es)[es[i].0] == es[i].1,
{
    assert(has_key(es, es[i].0));
    let j = index_of(es, es[i].0);
    if j < i {
        assert(es[j].0 != es[i].0);
    } else if i < j {
        assert(es[i].0 != es[j].0);
    }
}

/// The lists of a registry keep their aliases apart where its entries do.
proof fn lemma_all_unique(es: Seq<(Seq<char>, ProcList)>)
    requires
        well_kept(es),
    ensures
        all_unique(entries_map(es)),
{
    assert forall|w: Seq<char>| entries_map(es).contains_key(w) implies aliases_unique(
        #[trigger] entries_map(es)[w],
    ) by {
        let i = index_of(es, w);
        assert(aliases_unique(es[i].1));
    }
}

proof fn lemma_lists_unique_update(es: Seq<(Seq<char>, ProcList)>, i: int, list: ProcList)
    requires
        lists_unique(es),
        0 <= i < es.len(),
        aliases_unique(list),
    ensures
        lists_unique(es.update(i, (es[i].0, list))),
{
    let now = es.update(i, (es[i].0, list));
    assert forall|k: int| 0 <= k < now.len() implies aliases_unique((#[trigger] now[k]).1) by {
        if k != i {
            assert(now[k] == es[k]);
        }
    }
}

proof fn lemma_lists_unique_push(es: Seq<(Seq<char>, ProcList)>, w: Seq<char>, list: ProcList)
    requires
        lists_unique(es),
        aliases_unique(list),
    ensures
        lists_unique(es.push((w, list))),
{
    let now = es.push((w, list));
    assert forall|k: int| 0 <= k < now.len() implies aliases_unique((#[trigger] now[k]).1) by {
        if k < es.len() {
            assert(now[k] == es[k]);
        }
    }
}

proof fn lemma_entries_update(es: Seq<(Seq<char>, ProcList)>, i: int, list: ProcList)
    requires
        distinct_keys(es),
        0 <= i < es.len(),
    ensures
        distinct_keys(es.update(i, (es[i].0, list))),
        entries_map(es.update(i, (es[i].0, list))) == entries_map(es).insert(es[i].0, list),
{
    let w = es[i].0;
    let now = es.update(i, (w, list));
    assert forall|a: int, b: int| 0 <= a < b < now.len() implies (#[trigger] now[a]).0 != (
    #[trigger] now[b]).0 by {
        assert(now[a].0 == es[a].0);
        assert(now[b].0 == es[b].0);
    }
    assert forall|k: Seq<char>| has_key(now, k) == has_key(es, k) by {
        if has_key(now, k) {
            let j = index_of(now, k);
            assert(es[j].0 == k);
        }
        if has_key(es, k) {
            let j = index_of(es, k);
            assert(now[j].0 == k);
        }
    }
    lemma_entry(es, i);
    lemma_entry(now, i);
    assert forall|k: Seq<char>| has_key(now, k) implies #[trigger] entries_map(now)[k]
        == entries_map(es).insert(w, list)[k] by {
        let j = index_of(now, k);
        lemma_entry(now, j);
        lemma_entry(es, j);
    }
    assert(entries_map(now) =~= entries_map(es).insert(w, list));
}

proof fn lemma_entries_push(es: Seq<(Seq<char>, ProcList)>, w: Seq<char>, list: ProcList)
    requires
        distinct_keys(es),
        !has_key(es, w),
    ensures
        distinct_keys(es.push((w, list))),
        entries_map(es.push((w, list))) == entries_map(es).insert(w, list),
{
    let now = es.push((w, list));
    assert forall|a: int, b: int| 0 <= a < b < now.len() implies (#[trigger] now[a]).0 != (
    #[trigger] now[b]).0 by {
        assert(now[a] == es[a]);
        if b < es.len() {
            assert(now[b] == es[b]);
        }
    }
    lemma_entry(now, es.len() as int);
    assert forall|k: Seq<char>| has_key(now, k) == (has_key(es, k) || k == w) by {
        if has_key(now, k) {
            let j = index_of(now, k);
            if j < es.len() {
                assert(es[j].0 == k);
            }
        }
        if has_key(es, k) {
            let j = index_of(es, k);
            assert(now[j].0 == k);
        }
    }
    assert forall|k: Seq<char>| has_key(now, k) implies #[trigger] entries_map(now)[k]
        == entries_map(es).insert(w, list)[k] by {
        let j = index_of(now, k);
        lemma_entry(now, j);
        if j < es.len() {
            assert(now[j] == es[j]);
            lemma_entry(es, j);
        }
    }
    assert(entries_map(now) =~= entries_map(es).insert(w, list));
}

/// For each working directory that has any, its procedures in order. No
/// alias names two procedures of one directory.
///
/// The lists are kept as pairs of directory and list, each directory once:
/// vstd has no model of hashing for `String`, so that nothing could be proved
/// of a hash map keyed by the directories.
#[derive(Debug)]
pub struct Procedures {
    by_workdir: Vec<(Workdir, Vec<(String, Procedure)>)>,
}

impl View for Procedures {
    type V = Registry;

    closed spec fn view(&self) -> Registry {
        entries_map(self.by_workdir.deep_view())
    }
}

/// Whether `alias` names a procedure of `list`.
fn list_uses_alias(list: &Vec<(String, Procedure)>, alias: &String) -> (r: bool)
    ensures
        r == alias_used(list.deep_view(), alias@),
{
    let mut i: usize = 0;
    while i < list.len()
        invariant
            i <= list.len(),
            forall|k: int| 0 <= k < i ==> (#[trigger] list.deep_view()[k]).0 != alias@,
        decreases list.len() - i,
    {
        if list[i].0 == *alias {
            assert(list.deep_view()[i as int].0 == alias@);
            return true;
        }
        i += 1;
    }
    false
}

/// The alias that a new procedure of `list` gets where none is given.
pub fn auto_alias(list: &Vec<(String, Procedure)>) -> (r: String)
    ensures
        r@ == alias_label(auto_alias_number(list.deep_view())),
{
    let ghost lv = list.deep_view();
    let mut n: u128 = 1;
    let mut budget: usize = list.len();
    loop
        invariant
            n + budget == 1 + list.len(),
            lv == list.deep_view(),
            auto_alias_number(lv) == first_unused_from(lv, n as nat, budget as nat),
        decreases budget,
    {
        let mut candidate = String::from_str("cmd");
        push_decimal(&mut candidate, n);
        if budget == 0 {
            return candidate;
        }
        let used = list_uses_alias(list, &candidate);
        if !used {
            return candidate;
        }
        n += 1;
        budget -= 1;
    }
}

/// Finds the entry of `workdir` among `entries`.
fn position(entries: &Vec<(Workdir, Vec<(String, Procedure)>)>, workdir: &String) -> (r: Option<
    usize,
>)
    ensures
        match r {
            Some(i) => i < entries.len() && entries.deep_view()[i as int].0 == workdir@,
            None => !has_key(entries.deep_view(), workdir@),
        },
{
    let mut i: usize = 0;
    while i < entries.len()
        invariant
            i <= entries.len(),
            forall|k: int| 0 <= k < i ==> (#[trigger] entries.deep_view()[k]).0 != workdir@,
        decreases entries.len() - i,
    {
        if entries[i].0 == *workdir {
            return Some(i);
        }
        i += 1;
    }
    None
}

fn add_to_entries(
    entries: &mut Vec<(Workdir, Vec<(String, Procedure)>)>,
    alias: Option<String>,
    workdir_path: String,
    command: String,
) -> (r: usize)
    requires
        well_kept(old(entries).deep_view()),
        alias_free(list_of(entries_map(old(entries).deep_view()), workdir_path@), alias.deep_view()),
    ensures
        well_kept(final(entries).deep_view()),
        entries_map(final(entries).deep_view()) == with_command(
            entries_map(old(entries).deep_view()),
            alias.deep_view(),
            workdir_path@,
            command@,
        ),
        r == list_of(entries_map(old(entries).deep_view()), workdir_path@).len() + 1,
{
    let ghost es = entries.deep_view();
    let at = match position(entries, &workdir_path) {
        Some(i) => i,
        None => {
            entries.push((workdir_path, Vec::new()));
            proof {
                let empty: ProcList = Seq::empty();
                assert(entries@.last().1.deep_view() =~= empty);
                assert(entries.deep_view() =~= es.push((workdir_path@, empty)));
                lemma_entries_push(es, workdir_path@, empty);
                lemma_lists_unique_push(es, workdir_path@, empty);
            }
            entries.len() - 1
        },
    };
    let ghost es1 = entries.deep_view();
    let ghost list = es1[at as int].1;
    proof {
        lemma_entry(es1, at as int);
        if has_key(es, workdir_path@) {
            lemma_entry(es, at as int);
        }
        assert(list == list_of(entries_map(es), workdir_path@));
    }
    let name = match alias {
        Some(s) => s,
        None => auto_alias(&entries[at].1),
    };
    assert(name@ == new_alias(list, alias.deep_view()));
    entries[at].1.push((name, Procedure { command }));
    let count = entries[at].1.len();
    proof {
        let now = list.push((name@, command@));
        assert(entries.deep_view()[at as int].1 =~= now);
        assert(entries.deep_view() =~= es1.update(at as int, (workdir_path@, now)));
        lemma_entries_update(es1, at as int, now);
        lemma_add_keeps_aliases_unique(list, alias.deep_view(), command@);
        lemma_lists_unique_update(es1, at as int, now);
        assert(entries_map(es1).insert(workdir_path@, now) =~= entries_map(es).insert(
            workdir_path@,
            now,
        ));
    }
    count
}

/// Whether no alias names two procedures of `list`.
pub fn has_unique_aliases(list: &Vec<(String, Procedure)>) -> (r: bool)
    ensures
        r == aliases_unique(list.deep_view()),
{
    let ghost lv = list.deep_view();
    let mut j: usize = 0;
    while j < list.len()
        invariant
            j <= list.len(),
            lv == list.deep_view(),
            forall|a: int, b: int| 0 <= a < b < j ==> (#[trigger] lv[a]).0 != (#[trigger] lv[b]).0,
        decreases list.len() - j,
    {
        let mut i: usize = 0;
        while i < j
            invariant
                i <= j < list.len(),
                lv == list.deep_view(),
                forall|a: int| 0 <= a < i ==> (#[trigger] lv[a]).0 != lv[j as int].0,
            decreases j - i,
        {
            if list[i].0 == list[j].0 {
                assert(lv[i as int].0 == lv[j as int].0);
                return false;
            }
            i += 1;
        }
        j += 1;
    }
    true
}

fn insert_into_entries(
    entries: &mut Vec<(Workdir, Vec<(String, Procedure)>)>,
    workdir: String,
    list: Vec<(String, Procedure)>,
)
    requires
        well_kept(old(entries).deep_view()),
        aliases_unique(list.deep_view()),
    ensures
        well_kept(final(entries).deep_view()),
        entries_map(final(entries).deep_view()) == entries_map(old(entries).deep_view()).insert(
            workdir@,
            list.deep_view(),
        ),
{
    let ghost es = entries.deep_view();
    match position(entries, &workdir) {
        Some(i) => {
            entries[i].1 = list;
            proof {
                assert(entries.deep_view() =~= es.update(i as int, (workdir@, list.deep_view())));
                lemma_entries_update(es, i as int, list.deep_view());
                lemma_lists_unique_update(es, i as int, list.deep_view());
            }
        },
        None => {
            entries.push((workdir, list));
            proof {
                assert(entries.deep_view() =~= es.push((workdir@, list.deep_view())));
                lemma_entries_push(es, workdir@, list.deep_view());
                lemma_lists_unique_push(es, workdir@, list.deep_view());
            }
        },
    }
}

fn remove_from_entries(
    entries: &mut Vec<(Workdir, Vec<(String, Procedure)>)>,
    workdir: &String,
    index: usize,
)
    requires
        well_kept(old(entries).deep_view()),
    ensures
        well_kept(final(entries).deep_view()),
        entries_map(final(entries).deep_view()) == without_item(
            entries_map(old(entries).deep_view()),
            workdir@,
            index as int,
        ),
{
    let ghost es = entries.deep_view();
    match position(entries, workdir) {
        Some(i) => {
            proof {
                lemma_entry(es, i as int);
            }
            if index < entries[i].1.len() {
                let ghost list = es[i as int].1;
                entries[i].1.remove(index);
                proof {
                    let now = list.remove(index as int);
                    assert(entries.deep_view()[i as int].1 =~= now);
                    assert(entries.deep_view() =~= es.update(i as int, (workdir@, now)));
                    lemma_entries_update(es, i as int, now);
                    lemma_edits_keep_aliases_unique(list, index as int, Seq::empty());
                    lemma_lists_unique_update(es, i as int, now);
                }
            }
        },
        None => {},
    }
}

fn set_in_entries(
    entries: &mut Vec<(Workdir, Vec<(String, Procedure)>)>,
    workdir: &String,
    index: usize,
    command: String,
)
    requires
        well_kept(old(entries).deep_view()),
    ensures
        well_kept(final(entries).deep_view()),
        entries_map(final(entries).deep_view()) == with_item_command(
            entries_map(old(entries).deep_view()),
            workdir@,
            index as int,
            command@,
        ),
{
    let ghost es = entries.deep_view();
    match position(entries, workdir) {
        Some(i) => {
            proof {
                lemma_entry(es, i as int);
            }
            if index < entries[i].1.len() {
                let ghost list = es[i as int].1;
                entries[i].1[index].1.command = command;
                proof {
                    let now = list.update(index as int, (list[index as int].0, command@));
                    assert(entries.deep_view()[i as int].1 =~= now);
                    assert(entries.deep_view() =~= es.update(i as int, (workdir@, now)));
                    lemma_entries_update(es, i as int, now);
                    lemma_edits_keep_aliases_unique(list, index as int, command@);
                    lemma_lists_unique_update(es, i as int, now);
                }
            }
        },
        None => {},
    }
}

impl Procedures {
    #[verifier::type_invariant]
    spec fn well_formed(self) -> bool {
        well_kept(self.by_workdir.deep_view())
    }

    /// A registry without any procedure.
    pub fn new() -> (r: Self)
        ensures
            r@ == Map::<Seq<char>, ProcList>::empty(),
    {
        let r = Procedures { by_workdir: Vec::new() };
        assert(r@ =~= Map::<Seq<char>, ProcList>::empty());
        r
    }

    /// The procedures of `workdir`, if it has a list. No alias names two of
    /// them.
    pub fn get(&self, workdir: &String) -> (r: Option<&Vec<(String, Procedure)>>)
        ensures
            match r {
                Some(list) => self@.contains_key(workdir@) && list.deep_view() == self@[workdir@]
                    && aliases_unique(list.deep_view()),
                None => !self@.contains_key(workdir@),
            },
            all_unique(self@),
    {
        proof {
            use_type_invariant(self);
            lemma_all_unique(self.by_workdir.deep_view());
        }
        match position(&self.by_workdir, workdir) {
            Some(i) => {
                proof {
                    lemma_entry(self.by_workdir.deep_view(), i as int);
                }
                Some(&self.by_workdir[i].1)
            },
            None => None,
        }
    }

    /// Calls to mind that no list of a registry holds an alias twice. There
    /// is nothing to do for it when the program runs.
    pub fn aliases_kept_apart(&self)
        ensures
            all_unique(self@),
    {
        proof {
            use_type_invariant(self);
            lemma_all_unique(self.by_workdir.deep_view());
        }
    }

    /// Whether `alias` names a procedure of `workdir` already, so that no
    /// procedure can be added under it.
    pub fn uses_alias(&self, workdir: &String, alias: &String) -> (r: bool)
        ensures
            r == alias_used(list_of(self@, workdir@), alias@),
    {
        match self.get(workdir) {
            Some(list) => list_uses_alias(list, alias),
            None => {
                assert(!alias_used(Seq::<(Seq<char>, Seq<char>)>::empty(), alias@));
                false
            },
        }
    }

    /// Adds a procedure at the end of the list of `workdir_path`, which is
    /// begun where the directory has none. Without an alias the procedure
    /// gets the lowest of `cmd1`, `cmd2`, ... that the directory does not use.
    /// An alias that is given must not name a procedure of the directory
    /// yet, which `uses_alias` tells: within a list no alias stands twice.
    /// Returns how many procedures the directory has then.
    pub fn add_command(&mut self, alias: Option<String>, workdir_path: String, command: String) -> (r:
        usize)
        requires
            alias_free(list_of(old(self)@, workdir_path@), alias.deep_view()),
        ensures
            final(self)@ == with_command(
                old(self)@,
                alias.deep_view(),
                workdir_path@,
                command@,
            ),
            r == list_of(old(self)@, workdir_path@).len() + 1,
            all_unique(final(self)@),
    {
        proof {
            use_type_invariant(&*self);
        }
        let mut entries: Vec<(Workdir, Vec<(String, Procedure)>)> = Vec::new();
        std::mem::swap(&mut self.by_workdir, &mut entries);
        let count = add_to_entries(&mut entries, alias, workdir_path, command);
        proof {
            lemma_all_unique(entries.deep_view());
        }
        self.by_workdir = entries;
        count
    }

    /// Puts `list` in the place of the procedures of `workdir`, and says
    /// so. A list in which an alias stands twice is not taken: the registry
    /// stays as it is.
    pub fn insert(&mut self, workdir: String, list: Vec<(String, Procedure)>) -> (r: bool)
        ensures
            r == aliases_unique(list.deep_view()),
            final(self)@ == if r {
                old(self)@.insert(workdir@, list.deep_view())
            } else {
                old(self)@
            },
            all_unique(final(self)@),
    {
        proof {
            use_type_invariant(&*self);
            lemma_all_unique(self.by_workdir.deep_view());
        }
        if !has_unique_aliases(&list) {
            return false;
        }
        let mut entries: Vec<(Workdir, Vec<(String, Procedure)>)> = Vec::new();
        std::mem::swap(&mut self.by_workdir, &mut entries);
        insert_into_entries(&mut entries, workdir, list);
        proof {
            lemma_all_unique(entries.deep_view());
        }
        self.by_workdir = entries;
        true
    }

    /// Removes the procedure at `index` of `workdir`. Nothing changes where
    /// the directory has no list or the list is shorter.
    pub fn remove_at(&mut self, workdir: &String, index: usize)
        ensures
            final(self)@ == without_item(old(self)@, workdir@, index as int),
            all_unique(final(self)@),
    {
        proof {
            use_type_invariant(&*self);
        }
        let mut entries: Vec<(Workdir, Vec<(String, Procedure)>)> = Vec::new();
        std::mem::swap(&mut self.by_workdir, &mut entries);
        remove_from_entries(&mut entries, workdir, index);
        proof {
            lemma_all_unique(entries.deep_view());
        }
        self.by_workdir = entries;
    }

    /// Gives the procedure at `index` of `workdir` the command `command`.
    /// Nothing changes where the directory has no list or the list is
    /// shorter.
    pub fn set_command(&mut self, workdir: &String, index: usize, command: String)
        ensures
            final(self)@ == with_item_command(old(self)@, workdir@, index as int, command@),
            all_unique(final(self)@),
    {
        proof {
            use_type_invariant(&*self);
        }
        let mut entries: Vec<(Workdir, Vec<(String, Procedure)>)> = Vec::new();
        std::mem::swap(&mut self.by_workdir, &mut entries);
        set_in_entries(&mut entries, workdir, index, command);
        proof {
            lemma_all_unique(entries.deep_view());
        }
        self.by_workdir = entries;
    }

    /// The directories with their lists, each directory once, in no
    /// particular order. No alias names two procedures of a list.
    pub fn entries(&self) -> (r: &Vec<(Workdir, Vec<(String, Procedure)>)>)
        ensures
            well_kept(r.deep_view()),
            entries_map(r.deep_view()) == self@,
    {
        proof {
            use_type_invariant(self);
        }
        &self.by_workdir
    }
}

impl Default for Procedures {
    fn default() -> (r: Self)
        ensures
            r@ == Map::<Seq<char>, ProcList>::empty(),
    {
        Procedures::new()
    }
}

fn clone_list(list: &Vec<(String, Procedure)>) -> (r: Vec<(String, Procedure)>)
    ensures
        r.deep_view() == list.deep_view(),
{
    let mut r: Vec<(String, Procedure)> = Vec::new();
    let mut i: usize = 0;
    while i < list.len()
        invariant
            i <= list.len(),
            r.deep_view() == list.deep_view().take(i as int),
        decreases list.len() - i,
    {
        let alias = list[i].0.clone();
        let procedure = list[i].1.clone();
        let ghost before = r.deep_view();
        r.push((alias, procedure));
        assert(r.deep_view() =~= before.push((alias@, procedure@)));
        assert(list.deep_view()[i as int] == (alias@, procedure@));
        i += 1;
        assert(r.deep_view() =~= list.deep_view().take(i as int));
    }
    assert(list.deep_view().take(i as int) =~= list.deep_view());
    r
}

impl Clone for Procedures {
    fn clone(&self) -> (r: Self)
        ensures
            r@ == self@,
    {
        proof {
            use_type_invariant(self);
        }
        let mut entries: Vec<(Workdir, Vec<(String, Procedure)>)> = Vec::new();
        let mut i: usize = 0;
        while i < self.by_workdir.len()
            invariant
                i <= self.by_workdir.len(),
                entries.deep_view() == self.by_workdir.deep_view().take(i as int),
            decreases self.by_workdir.len() - i,
        {
            let workdir = self.by_workdir[i].0.clone();
            let list = clone_list(&self.by_workdir[i].1);
            let ghost before = entries.deep_view();
            entries.push((workdir, list));
            assert(entries.deep_view() =~= before.push((workdir@, list.deep_view())));
            assert(self.by_workdir.deep_view()[i as int] == (workdir@, list.deep_view()));
            i += 1;
            assert(entries.deep_view() =~= self.by_workdir.deep_view().take(i as int));
        }
        assert(self.by_workdir.deep_view().take(i as int) =~= self.by_workdir.deep_view());
        Procedures { by_workdir: entries }
    }
}

} // verus!
