use vstd::prelude::*;
use crate::app_state::{BusInfo, ModuleInfo, TopologyGraph};
use crate::text::{
    lemma_seq_char_lt_irrefl, lemma_seq_char_lt_total, lemma_seq_char_lt_trans, seq_char_lt,
    str_eq, str_lt,
};

verus! {

/// The ids of the modules that sit on the named bus, in input order.
pub open spec fn ids_on_bus(ms: Seq<ModuleInfo>, name: Seq<char>) -> Seq<Seq<char>>
    decreases ms.len(),
{
    if ms.len() == 0 {
        Seq::empty()
    } else {
        let rest = ids_on_bus(ms.drop_last(), name);
        if ms.last().bus@ == name {
            rest.push(ms.last().id@)
        } else {
            rest
        }
    }
}

/// The id list of a bus entry, as character sequences.
pub open spec fn bus_ids(b: BusInfo) -> Seq<Seq<char>> {
    b.modules@.map_values(|s: String| s@)
}

/// Bus names strictly ascend.
pub open spec fn buses_sorted(bs: Seq<BusInfo>) -> bool {
    forall|i: int, j: int|
        0 <= i < j < bs.len() ==> seq_char_lt((#[trigger] bs[i]).name@, (#[trigger] bs[j]).name@)
}

/// Some module sits on the named bus.
pub open spec fn some_module_on(ms: Seq<ModuleInfo>, name: Seq<char>) -> bool {
    exists|j: int| 0 <= j < ms.len() && (#[trigger] ms[j]).bus@ == name
}

/// Some bus entry carries the name.
pub open spec fn some_bus_named(bs: Seq<BusInfo>, name: Seq<char>) -> bool {
    exists|i: int| 0 <= i < bs.len() && (#[trigger] bs[i]).name@ == name
}

/// The buses are exactly the distinct bus names of the modules.
pub open spec fn buses_cover(bs: Seq<BusInfo>, ms: Seq<ModuleInfo>) -> bool {
    (forall|i: int| 0 <= i < bs.len() ==> some_module_on(ms, (#[trigger] bs[i]).name@)) && (
    forall|j: int| 0 <= j < ms.len() ==> some_bus_named(bs, (#[trigger] ms[j]).bus@))
}

/// Each bus lists exactly the ids of the modules on it, in input order.
pub open spec fn buses_grouped(bs: Seq<BusInfo>, ms: Seq<ModuleInfo>) -> bool {
    forall|i: int| 0 <= i < bs.len() ==> bus_ids(#[trigger] bs[i]) == ids_on_bus(ms, bs[i].name@)
}

/// A bus that carries none of the modules lists no ids.
proof fn lemma_ids_on_bus_absent(ms: Seq<ModuleInfo>, name: Seq<char>)
    requires
        forall|j: int| 0 <= j < ms.len() ==> (#[trigger] ms[j]).bus@ != name,
    ensures
        ids_on_bus(ms, name) =~= Seq::<Seq<char>>::empty(),
    decreases ms.len(),
{
    if ms.len() > 0 {
        assert(ms.drop_last().len() == ms.len() - 1);
        lemma_ids_on_bus_absent(ms.drop_last(), name);
    }
}

/// Appending a module extends its own bus's ids and leaves every other
/// bus's ids alone.
proof fn lemma_ids_on_bus_push(ms: Seq<ModuleInfo>, m: ModuleInfo, name: Seq<char>)
    ensures
        m.bus@ == name ==> ids_on_bus(ms.push(m), name) == ids_on_bus(ms, name).push(m.id@),
        m.bus@ != name ==> ids_on_bus(ms.push(m), name) == ids_on_bus(ms, name),
{
    assert(ms.push(m).drop_last() =~= ms);
    assert(ms.push(m).last() == m);
}

/// In a sorted bus list whose insertion point for `name` is `pos`, no entry
/// carries `name`.
proof fn lemma_sorted_name_absent(pre: Seq<BusInfo>, pos: int, name: Seq<char>, i: int)
    requires
        buses_sorted(pre),
        0 <= pos <= pre.len(),
        0 <= i < pre.len(),
        forall|j: int| 0 <= j < pos ==> seq_char_lt((#[trigger] pre[j]).name@, name),
        pos < pre.len() ==> seq_char_lt(name, pre[pos].name@),
    ensures
        pre[i].name@ != name,
{
    lemma_seq_char_lt_irrefl(name);
    if i > pos {
        if pre[i].name@ == name {
            lemma_seq_char_lt_trans(name, pre[pos as int].name@, pre[i].name@);
        }
    }
}

/// Replacing the entry at `pos` by one with the same name and the new
/// module's id appended preserves the three grouping properties, when the
/// module sits on that entry's bus.
#[verifier::rlimit(100)]
proof fn lemma_topology_update(
    pre: Seq<BusInfo>,
    post: Seq<BusInfo>,
    ms: Seq<ModuleInfo>,
    m: ModuleInfo,
    pos: int,
)
    requires
        buses_sorted(pre),
        buses_cover(pre, ms),
        buses_grouped(pre, ms),
        0 <= pos < pre.len(),
        pre[pos].name@ == m.bus@,
        post.len() == pre.len(),
        forall|i: int| 0 <= i < pre.len() && i != pos ==> post[i] == pre[i],
        post[pos].name@ == pre[pos].name@,
        bus_ids(post[pos]) == bus_ids(pre[pos]).push(m.id@),
    ensures
        buses_sorted(post),
        buses_grouped(post, ms.push(m)),
{
    assert forall|i: int, j: int| 0 <= i < j < post.len() implies seq_char_lt(
        (#[trigger] post[i]).name@,
        (#[trigger] post[j]).name@,
    ) by {
        assert(post[i].name@ == pre[i].name@);
        assert(post[j].name@ == pre[j].name@);
    }
    assert(ms.push(m)[ms.len() as int] == m);
    assert forall|i: int| 0 <= i < post.len() implies bus_ids(#[trigger] post[i]) == ids_on_bus(
        ms.push(m),
        post[i].name@,
    ) by {
        lemma_ids_on_bus_push(ms, m, post[i].name@);
        if i != pos {
            assert(post[i] == pre[i]);
            assert(pre[i].name@ != m.bus@) by {
                lemma_seq_char_lt_irrefl(pre[i].name@);
            }
        }
    }
}

/// Inserting a fresh entry at the sorted position, carrying just the new
/// module's id, preserves the three grouping properties when no earlier
/// entry carries the module's bus.
#[verifier::rlimit(100)]
proof fn lemma_topology_insert(
    pre: Seq<BusInfo>,
    post: Seq<BusInfo>,
    ms: Seq<ModuleInfo>,
    m: ModuleInfo,
    pos: int,
)
    requires
        buses_sorted(pre),
        buses_cover(pre, ms),
        buses_grouped(pre, ms),
        0 <= pos <= pre.len(),
        forall|j: int| 0 <= j < pos ==> seq_char_lt((#[trigger] pre[j]).name@, m.bus@),
        pos < pre.len() ==> seq_char_lt(m.bus@, pre[pos].name@),
        post.len() == pre.len() + 1,
        forall|j: int| 0 <= j < pos ==> post[j] == pre[j],
        forall|j: int| pos < j < post.len() ==> post[j] == pre[j - 1],
        post[pos].name@ == m.bus@,
        bus_ids(post[pos]) == Seq::<Seq<char>>::empty().push(m.id@),
    ensures
        buses_sorted(post),
        buses_grouped(post, ms.push(m)),
{
    assert forall|i: int| 0 <= i < pre.len() implies (#[trigger] pre[i]).name@ != m.bus@ by {
        lemma_sorted_name_absent(pre, pos, m.bus@, i);
    }
    assert forall|j: int| 0 <= j < ms.len() implies (#[trigger] ms[j]).bus@ != m.bus@ by {
        assert(some_bus_named(pre, ms[j].bus@));
        let i = choose|i: int| 0 <= i < pre.len() && (#[trigger] pre[i]).name@ == ms[j].bus@;
        assert(pre[i].name@ != m.bus@);
    }
    assert forall|i: int, j: int| 0 <= i < j < post.len() implies seq_char_lt(
        (#[trigger] post[i]).name@,
        (#[trigger] post[j]).name@,
    ) by {
        if i == pos {
            assert(post[j] == pre[j - 1]);
            if pos < j - 1 {
                lemma_seq_char_lt_trans(m.bus@, pre[pos].name@, pre[j - 1].name@);
            }
        } else if j == pos {
            assert(post[i] == pre[i]);
        } else if i < pos && j > pos {
            if i == j - 1 {
                lemma_seq_char_lt_trans(pre[i].name@, m.bus@, pre[pos].name@);
            } else {
                assert(post[i] == pre[i] && post[j] == pre[j - 1]);
            }
        }
    }
    assert(ms.push(m)[ms.len() as int] == m);
    assert forall|i: int| 0 <= i < post.len() implies bus_ids(#[trigger] post[i]) == ids_on_bus(
        ms.push(m),
        post[i].name@,
    ) by {
        lemma_ids_on_bus_push(ms, m, post[i].name@);
        if i == pos {
            lemma_ids_on_bus_absent(ms, m.bus@);
            assert(ids_on_bus(ms.push(m), m.bus@) == ids_on_bus(ms, m.bus@).push(m.id@));
            assert(ids_on_bus(ms, m.bus@) == Seq::<Seq<char>>::empty());
        } else {
            let oi = if i < pos {
                i
            } else {
                i - 1
            };
            assert(post[i] == pre[oi]);
            assert(pre[oi].name@ != m.bus@);
        }
    }
}

/// Appending a module on an already-present bus keeps the name coverage.
proof fn lemma_cover_update(
    pre: Seq<BusInfo>,
    post: Seq<BusInfo>,
    ms: Seq<ModuleInfo>,
    m: ModuleInfo,
    pos: int,
)
    requires
        buses_cover(pre, ms),
        0 <= pos < pre.len(),
        pre[pos].name@ == m.bus@,
        post.len() == pre.len(),
        forall|i: int| 0 <= i < post.len() ==> (#[trigger] post[i]).name@ == pre[i].name@,
    ensures
        buses_cover(post, ms.push(m)),
{
    let pushed = ms.push(m);
    assert forall|i: int| #![trigger post[i]] 0 <= i < post.len() implies some_module_on(
        pushed,
        post[i].name@,
    ) by {
        assert(some_module_on(ms, pre[i].name@));
        let j = choose|j: int| 0 <= j < ms.len() && (#[trigger] ms[j]).bus@ == pre[i].name@;
        assert(pushed[j].bus@ == post[i].name@);
    }
    assert forall|j: int| #![trigger pushed[j]] 0 <= j < pushed.len() implies some_bus_named(
        post,
        pushed[j].bus@,
    ) by {
        if j < ms.len() {
            assert(some_bus_named(pre, ms[j].bus@));
            let i = choose|i: int| 0 <= i < pre.len() && (#[trigger] pre[i]).name@ == ms[j].bus@;
            assert(post[i].name@ == pushed[j].bus@);
        } else {
            assert(pushed[j] == m);
            assert(post[pos].name@ == pushed[j].bus@);
        }
    }
}

/// Inserting a fresh bus entry for the new module keeps the name coverage.
proof fn lemma_cover_insert(
    pre: Seq<BusInfo>,
    post: Seq<BusInfo>,
    ms: Seq<ModuleInfo>,
    m: ModuleInfo,
    pos: int,
)
    requires
        buses_cover(pre, ms),
        0 <= pos <= pre.len(),
        post.len() == pre.len() + 1,
        forall|j: int| 0 <= j < pos ==> (#[trigger] post[j]).name@ == pre[j].name@,
        forall|j: int| pos < j < post.len() ==> (#[trigger] post[j]).name@ == pre[j - 1].name@,
        post[pos].name@ == m.bus@,
    ensures
        buses_cover(post, ms.push(m)),
{
    let pushed = ms.push(m);
    assert forall|i: int| #![trigger post[i]] 0 <= i < post.len() implies some_module_on(
        pushed,
        post[i].name@,
    ) by {
        if i == pos {
            assert(pushed[ms.len() as int].bus@ == post[i].name@);
        } else {
            let oi = if i < pos {
                i
            } else {
                i - 1
            };
            assert(post[i].name@ == pre[oi].name@);
            assert(some_module_on(ms, pre[oi].name@));
            let j = choose|j: int| 0 <= j < ms.len() && (#[trigger] ms[j]).bus@ == pre[oi].name@;
            assert(pushed[j].bus@ == post[i].name@);
        }
    }
    assert forall|j: int| #![trigger pushed[j]] 0 <= j < pushed.len() implies some_bus_named(
        post,
        pushed[j].bus@,
    ) by {
        if j < ms.len() {
            assert(some_bus_named(pre, ms[j].bus@));
            let oi = choose|oi: int|
                0 <= oi < pre.len() && (#[trigger] pre[oi]).name@ == ms[j].bus@;
            let i = if oi < pos {
                oi
            } else {
                oi + 1
            };
            assert(post[i].name@ == pushed[j].bus@);
        } else {
            assert(pushed[j] == m);
            assert(post[pos].name@ == pushed[j].bus@);
        }
    }
}

/// Groups the modules by bus name, keeping the insertion order inside each
/// bus, and emits the buses sorted ascending by name: the graph's bus list
/// is sorted, covers exactly the distinct bus names of the input, and each
/// bus carries exactly its modules' ids.
#[verifier::loop_isolation(false)]
#[verifier::rlimit(100)]
pub fn build_topology(modules: &Vec<ModuleInfo>) -> (r: TopologyGraph)
    ensures
        buses_sorted(r.buses@),
        buses_cover(r.buses@, modules@),
        buses_grouped(r.buses@, modules@),
{
    let mut buses: Vec<BusInfo> = Vec::new();
    let mut t: usize = 0;
    while t < modules.len()
        invariant
            t <= modules@.len(),
            buses_sorted(buses@),
            buses_cover(buses@, modules@.take(t as int)),
            buses_grouped(buses@, modules@.take(t as int)),
        decreases modules@.len() - t,
    {
        let m = &modules[t];
        let ghost pre = buses@;
        let ghost taken = modules@.take(t as int);
        proof {
            assert(modules@.take(t + 1) =~= taken.push(modules@[t as int]));
        }
        let mut pos: usize = 0;
        while pos < buses.len() && str_lt(&buses[pos].name, &m.bus)
            invariant
                pos <= buses@.len(),
                buses@ == pre,
                forall|j: int| 0 <= j < pos ==> seq_char_lt((#[trigger] buses@[j]).name@, m.bus@),
            decreases buses@.len() - pos,
        {
            pos = pos + 1;
        }
        if pos < buses.len() && str_eq(&buses[pos].name, &m.bus) {
            let mut entry = buses.remove(pos);
            entry.modules.push(m.id.clone());
            buses.insert(pos, entry);
            proof {
                assert(buses@.len() == pre.len());
                assert(forall|i: int| 0 <= i < pre.len() && i != pos ==> buses@[i] == pre[i]);
                assert(bus_ids(buses@[pos as int]) =~= bus_ids(pre[pos as int]).push(m.id@));
                lemma_topology_update(pre, buses@, taken, modules@[t as int], pos as int);
                lemma_cover_update(pre, buses@, taken, modules@[t as int], pos as int);
            }
        } else {
            proof {
                if pos < buses@.len() {
                    lemma_seq_char_lt_total(pre[pos as int].name@, m.bus@);
                    assert(seq_char_lt(m.bus@, pre[pos as int].name@));
                }
            }
            let mut ids: Vec<String> = Vec::new();
            ids.push(m.id.clone());
            let entry = BusInfo { name: m.bus.clone(), modules: ids };
            buses.insert(pos, entry);
            proof {
                assert(bus_ids(buses@[pos as int]) =~= Seq::<Seq<char>>::empty().push(m.id@));
                lemma_topology_insert(pre, buses@, taken, modules@[t as int], pos as int);
                lemma_cover_insert(pre, buses@, taken, modules@[t as int], pos as int);
            }
        }
        t = t + 1;
    }
    proof {
        assert(modules@.take(modules@.len() as int) =~= modules@);
    }
    TopologyGraph { buses }
}

/// Two module lists with the same ids and buses, position for position,
/// list the same ids on every bus.
pub proof fn lemma_ids_on_bus_fields(ms1: Seq<ModuleInfo>, ms2: Seq<ModuleInfo>, name: Seq<char>)
    requires
        ms1.len() == ms2.len(),
        forall|i: int| 0 <= i < ms1.len() ==> (#[trigger] ms1[i]).id@ == ms2[i].id@
            && ms1[i].bus@ == ms2[i].bus@,
    ensures
        ids_on_bus(ms1, name) == ids_on_bus(ms2, name),
    decreases ms1.len(),
{
    if ms1.len() > 0 {
        assert(ms1.drop_last().len() == ms1.len() - 1);
        assert(ms2.drop_last().len() == ms2.len() - 1);
        assert(ms1.last().id@ == ms2.last().id@ && ms1.last().bus@ == ms2.last().bus@);
        assert forall|i: int| 0 <= i < ms1.drop_last().len() implies (
        #[trigger] ms1.drop_last()[i]).id@ == ms2.drop_last()[i].id@
            && ms1.drop_last()[i].bus@ == ms2.drop_last()[i].bus@ by {
            assert(ms1.drop_last()[i] == ms1[i]);
            assert(ms2.drop_last()[i] == ms2[i]);
        }
        lemma_ids_on_bus_fields(ms1.drop_last(), ms2.drop_last(), name);
    }
}

/// Rewriting module fields other than id and bus keeps a bus list's
/// coverage and grouping.
pub proof fn lemma_topology_fields_preserved(
    bs: Seq<BusInfo>,
    ms1: Seq<ModuleInfo>,
    ms2: Seq<ModuleInfo>,
)
    requires
        buses_cover(bs, ms1),
        buses_grouped(bs, ms1),
        ms1.len() == ms2.len(),
        forall|i: int| 0 <= i < ms1.len() ==> (#[trigger] ms1[i]).id@ == ms2[i].id@
            && ms1[i].bus@ == ms2[i].bus@,
    ensures
        buses_cover(bs, ms2),
        buses_grouped(bs, ms2),
{
    assert forall|i: int| 0 <= i < bs.len() implies some_module_on(
        ms2,
        (#[trigger] bs[i]).name@,
    ) by {
        let j = choose|j: int| 0 <= j < ms1.len() && (#[trigger] ms1[j]).bus@ == bs[i].name@;
        assert(ms2[j].bus@ == bs[i].name@);
    }
    assert forall|j: int| 0 <= j < ms2.len() implies some_bus_named(
        bs,
        (#[trigger] ms2[j]).bus@,
    ) by {
        assert(ms1[j].bus@ == ms2[j].bus@);
        assert(some_bus_named(bs, ms1[j].bus@));
    }
    assert forall|i: int| 0 <= i < bs.len() implies bus_ids(#[trigger] bs[i]) == ids_on_bus(
        ms2,
        bs[i].name@,
    ) by {
        lemma_ids_on_bus_fields(ms1, ms2, bs[i].name@);
    }
}

} // verus!
