//! What is told of processes: what runs below one, what above it, and what they
//! are called.
use crate::laws::text::is_free_of;
use crate::laws::text::is_solid;
use crate::laws::text::law_name_follows_the_last_slash;
use crate::laws::text::law_text_is_split_at_separators;
use crate::laws::text::law_words_stand_between_white_space;
use crate::laws::text::lemma_last_part;
use crate::process::ProcInfo;
use crate::process::SharedProcessData;
use crate::process::active_below;
use crate::process::ancestors;
use crate::process::binary_name;
use crate::process::children_of;
use crate::process::children_view;
use crate::process::cwd_in_lsof;
use crate::process::descendants;
use crate::process::described;
use crate::process::first_named;
use crate::process::is_below;
use crate::process::is_line_of_descent;
use crate::process::last_filled;
use crate::process::law_descendants_are_those_below;
use crate::process::lemma_unseen_shrinks;
use crate::process::parents;
use crate::process::project_of;
use crate::process::unseen;
use crate::process::walk;
use crate::report::memory_mb;
use crate::text::is_white;
use crate::text::lines;
use crate::text::split_on;
use crate::text::words;
use vstd::prelude::*;

verus! {

/// Whether `child` is among the children of `parent`.
pub open spec fn is_child(children: Map<u32, Vec<u32>>, parent: u32, child: u32) -> bool {
    children.contains_key(parent) && children[parent]@.contains(child)
}

/// Whether the processes of the line follow each other, each a child of the one
/// before.
pub open spec fn descends(children: Map<u32, Vec<u32>>, line: Seq<u32>) -> bool {
    line.len() >= 2 && forall|i: int|
        #![trigger line[i]]
        1 <= i < line.len() ==> is_child(children, line[i - 1], line[i])
}

/// Whether `to` runs below `from`, at any distance.
pub open spec fn runs_below(children: Map<u32, Vec<u32>>, from: u32, to: u32) -> bool {
    exists|line: Seq<u32>| #[trigger]
        descends(children, line) && line[0] == from && line[line.len() - 1] == to
}

proof fn lemma_below(children: Map<u32, Vec<u32>>, from: u32)
    ensures
        descendants(children, from).no_duplicates(),
        forall|to: u32| #[trigger]
            descendants(children, from).contains(to) <==> runs_below(children, from, to),
{
    law_descendants_are_those_below(children, from);
    assert forall|to: u32| #[trigger] descendants(children, from).contains(to) <==> runs_below(
        children,
        from,
        to,
    ) by {
        if is_below(children, from, to) {
            let line = choose|line: Seq<u32>| #[trigger]
                is_line_of_descent(children, line) && line[0] == from && line.last() == to;
            assert forall|i: int| #![trigger line[i]] 1 <= i < line.len() implies is_child(
                children,
                line[i - 1],
                line[i],
            ) by {
                assert(children_of(children, line[i - 1]).contains(line[i]));
            }
            assert(descends(children, line));
        }
        if runs_below(children, from, to) {
            let line = choose|line: Seq<u32>| #[trigger]
                descends(children, line) && line[0] == from && line[line.len() - 1] == to;
            assert forall|i: int| #![trigger line[i]] 0 < i < line.len() implies children_of(
                children,
                line[i - 1],
            ).contains(line[i]) by {
                assert(is_child(children, line[i - 1], line[i]));
            }
            assert(is_line_of_descent(children, line));
        }
    }
}

proof fn lemma_described(
    order: Seq<u32>,
    info: Map<u32, ProcInfo>,
    ports: Map<u32, Vec<u16>>,
)
    requires
        order.no_duplicates(),
    ensures
        ({
            let r = described(order, info, ports);
            &&& forall|a: int|
                0 <= a < r.len() ==> {
                    let k = (#[trigger] r[a]).pid;
                    &&& order.contains(k)
                    &&& info.contains_key(k)
                    &&& r[a].command == info[k].command@
                    &&& r[a].mem_kb == info[k].rss_kb
                    &&& ports.contains_key(k) && ports[k]@.len() > 0 ==> r[a].port == Some(
                        ports[k]@[0],
                    )
                    &&& !ports.contains_key(k) || ports[k]@.len() == 0 ==> r[a].port is None
                }
            &&& forall|pid: u32|
                #![trigger order.contains(pid)]
                order.contains(pid) && info.contains_key(pid) ==> exists|a: int|
                    0 <= a < r.len() && (#[trigger] r[a]).pid == pid
            &&& forall|a: int, b: int|
                0 <= a < b < r.len() ==> (#[trigger] r[a]).pid != (#[trigger] r[b]).pid
        }),
    decreases order.len(),
{
    if order.len() > 0 {
        let most = order.drop_last();
        let last = order.last();
        assert forall|x: u32| most.contains(x) implies #[trigger] order.contains(x) by {
            let k = choose|k: int| 0 <= k < most.len() && most[k] == x;
            assert(order[k] == x);
        }
        assert forall|x: u32| #[trigger] order.contains(x) implies x == last || most.contains(x) by {
            let k = choose|k: int| 0 <= k < order.len() && order[k] == x;
            if k < most.len() {
                assert(most[k] == x);
            }
        }
        assert(order.contains(last)) by {
            assert(order[order.len() - 1] == last);
        }
        assert(!most.contains(last)) by {
            if most.contains(last) {
                let k = choose|k: int| 0 <= k < most.len() && most[k] == last;
                assert(order[k] == order[order.len() - 1]);
            }
        }
        assert(most.no_duplicates()) by {
            assert forall|i: int, j: int| 0 <= i < most.len() && 0 <= j < most.len() && i
                != j implies most[i] != most[j] by {
                assert(order[i] != order[j]);
            }
        }
        lemma_described(most, info, ports);
        let rest = described(most, info, ports);
        let r = described(order, info, ports);
        assert forall|a: int| 0 <= a < rest.len() implies r[a] == #[trigger] rest[a] by {}
        assert forall|a: int, b: int| 0 <= a < b < r.len() implies (#[trigger] r[a]).pid != (
        #[trigger] r[b]).pid by {
            assert(most.contains(rest[a].pid));
            if b < rest.len() {
                assert(rest[a].pid != rest[b].pid);
            }
        }
        assert forall|pid: u32|
            #![trigger order.contains(pid)]
            order.contains(pid) && info.contains_key(pid) implies exists|a: int|
            0 <= a < r.len() && (#[trigger] r[a]).pid == pid by {
            if pid == last {
                assert(r[r.len() - 1].pid == pid);
            } else {
                assert(most.contains(pid));
                let a = choose|a: int| 0 <= a < rest.len() && (#[trigger] rest[a]).pid == pid;
                assert(r[a].pid == pid);
            }
        }
    }
}

/// The children that are told of a process are the known processes below it, at
/// any distance: each of them once, with its own number, command, memory and
/// first port, and no other.
pub proof fn law_children_are_the_known_processes_below(pid: u32, shared: SharedProcessData)
    ensures
        ({
            let r = children_view(pid, shared);
            let info = shared.process_info@;
            let ports = shared.ports@;
            &&& forall|a: int|
                0 <= a < r.len() ==> {
                    let k = (#[trigger] r[a]).pid;
                    &&& runs_below(shared.children_map@, pid, k)
                    &&& info.contains_key(k)
                    &&& r[a].command == info[k].command@
                    &&& r[a].mem_kb == info[k].rss_kb
                    &&& ports.contains_key(k) && ports[k]@.len() > 0 ==> r[a].port == Some(
                        ports[k]@[0],
                    )
                    &&& !ports.contains_key(k) || ports[k]@.len() == 0 ==> r[a].port is None
                }
            &&& forall|k: u32|
                #![trigger info.contains_key(k)]
                info.contains_key(k) && runs_below(shared.children_map@, pid, k) ==> exists|a: int|
                    0 <= a < r.len() && (#[trigger] r[a]).pid == k
            &&& forall|a: int, b: int|
                0 <= a < b < r.len() ==> (#[trigger] r[a]).pid != (#[trigger] r[b]).pid
        }),
{
    let order = descendants(shared.children_map@, pid);
    lemma_below(shared.children_map@, pid);
    lemma_described(order, shared.process_info@, shared.ports@);
    assert forall|k: u32|
        #![trigger shared.process_info@.contains_key(k)]
        shared.process_info@.contains_key(k) && runs_below(
            shared.children_map@,
            pid,
            k,
        ) implies exists|a: int|
        0 <= a < children_view(pid, shared).len() && (#[trigger] children_view(
            pid,
            shared,
        )[a]).pid == k by {
        assert(order.contains(k));
    }
}

/// Something is at work below a process if and only if a process below it, at
/// any distance, is known to have a load over the threshold.
pub proof fn law_work_below_is_a_loaded_process_below(
    pid: u32,
    children: Map<u32, Vec<u32>>,
    info: Map<u32, ProcInfo>,
    threshold: u64,
)
    ensures
        active_below(pid, children, info, threshold) <==> exists|k: u32|
            #![trigger info.contains_key(k)]
            info.contains_key(k) && info[k].cpu_millis > threshold && runs_below(children, pid, k),
{
    let order = descendants(children, pid);
    lemma_below(children, pid);
    if active_below(pid, children, info, threshold) {
        let i = choose|i: int|
            #![trigger order[i]]
            0 <= i < order.len() && info.contains_key(order[i]) && info[order[i]].cpu_millis
                > threshold;
        assert(order.contains(order[i]));
    }
    if exists|k: u32|
        #![trigger info.contains_key(k)]
        info.contains_key(k) && info[k].cpu_millis > threshold && runs_below(children, pid, k) {
        let k = choose|k: u32|
            #![trigger info.contains_key(k)]
            info.contains_key(k) && info[k].cpu_millis > threshold && runs_below(children, pid, k);
        assert(order.contains(k));
        let i = choose|i: int| 0 <= i < order.len() && order[i] == k;
        assert(descendants(children, pid)[i] == k);
    }
}

/// Whether the process at `i` is the parent of the one before it.
pub open spec fn is_parent_at(info: Map<u32, ProcInfo>, line: Seq<u32>, i: int) -> bool {
    info.contains_key(line[i - 1]) && info[line[i - 1]].ppid == line[i]
}

proof fn lemma_parents(info: Map<u32, ProcInfo>, cur: u32, seen: Seq<u32>)
    requires
        seen.no_duplicates(),
        !seen.contains(0),
        seen.len() > 0 ==> info.contains_key(seen.last()) && info[seen.last()].ppid == cur
            && cur != seen.last(),
        forall|i: int| 0 < i < seen.len() ==> #[trigger] is_parent_at(info, seen, i),
    ensures
        ({
            let r = parents(info, cur, seen);
            &&& r.no_duplicates()
            &&& !r.contains(0)
            &&& seen.len() <= r.len()
            &&& forall|i: int| 0 <= i < seen.len() ==> #[trigger] r[i] == seen[i]
            &&& cur != 0 && !seen.contains(cur) ==> r.len() > seen.len() && r[seen.len() as int]
                == cur
            &&& cur == 0 ==> r == seen
            &&& forall|i: int| 0 < i < r.len() ==> #[trigger] is_parent_at(info, r, i)
            &&& r.len() > 0 && info.contains_key(r.last()) ==> info[r.last()].ppid == 0
                || r.contains(info[r.last()].ppid)
        }),
    decreases unseen(seen),
{
    if cur == 0 || seen.contains(cur) {
    } else {
        lemma_unseen_shrinks(seen, cur);
        let met = seen.push(cur);
        assert(met.no_duplicates()) by {
            assert forall|i: int, j: int| 0 <= i < met.len() && 0 <= j < met.len() && i
                != j implies met[i] != met[j] by {
                if i == seen.len() && met[i] == met[j] {
                    assert(seen.contains(seen[j]));
                }
                if j == seen.len() && met[i] == met[j] {
                    assert(seen.contains(seen[i]));
                }
            }
        }
        assert(!met.contains(0)) by {
            if met.contains(0) {
                let k = choose|k: int| 0 <= k < met.len() && met[k] == 0;
                if k < seen.len() {
                    assert(seen.contains(seen[k]));
                }
            }
        }
        assert forall|i: int| 0 < i < met.len() implies #[trigger] is_parent_at(info, met, i) by {
            if i < seen.len() {
                assert(is_parent_at(info, seen, i));
            } else {
                assert(met[i - 1] == seen.last());
            }
        }
        assert(met[met.len() - 1] == cur);
        assert(met.contains(cur));
        if info.contains_key(cur) && info[cur].ppid != 0 && info[cur].ppid != cur {
            lemma_parents(info, info[cur].ppid, met);
            let r = parents(info, cur, seen);
            assert(r == parents(info, info[cur].ppid, met));
            assert forall|i: int| 0 <= i < seen.len() implies #[trigger] r[i] == seen[i] by {
                assert(r[i] == met[i]);
            }
            assert(r[seen.len() as int] == met[seen.len() as int]);
        }
    }
}

/// The processes above one are its parent, the parent of that one and so on,
/// each once, until one has no parent or its parent was met before.
pub proof fn law_ancestors_are_the_line_of_parents(info: Map<u32, ProcInfo>, pid: u32)
    ensures
        ({
            let r = ancestors(info, pid);
            &&& r.no_duplicates()
            &&& !r.contains(0)
            &&& !info.contains_key(pid) || info[pid].ppid == 0 <==> r.len() == 0
            &&& r.len() > 0 ==> r[0] == info[pid].ppid
            &&& forall|i: int| 0 < i < r.len() ==> #[trigger] is_parent_at(info, r, i)
            &&& r.len() > 0 && info.contains_key(r.last()) ==> info[r.last()].ppid == 0
                || r.contains(info[r.last()].ppid)
        }),
{
    if info.contains_key(pid) {
        assert(!Seq::<u32>::empty().contains(info[pid].ppid));
        lemma_parents(info, info[pid].ppid, Seq::empty());
    }
}

/// The memory of a process in megabytes is told rounded down, and 0 where the
/// process is not known.
pub proof fn law_memory_is_in_megabytes(info: Map<u32, ProcInfo>, pid: u32)
    ensures
        info.contains_key(pid) ==> memory_mb(info, pid) * 1024 <= info[pid].rss_kb < memory_mb(
            info,
            pid,
        ) * 1024 + 1024,
        !info.contains_key(pid) ==> memory_mb(info, pid) == 0,
{
}

proof fn lemma_last_filled(parts: Seq<Seq<char>>, name: Seq<char>)
    ensures
        name.len() > 0 ==> last_filled(parts.push(name)) == Some(name),
        name.len() == 0 ==> last_filled(parts.push(name)) == last_filled(parts),
{
    assert(parts.push(name).drop_last() =~= parts);
}

/// A project is named after the last part of its path that is not empty: slashes
/// at the end do not count, and a path without such a part gives a question
/// mark.
pub proof fn law_project_is_the_last_part(dir: Seq<char>, name: Seq<char>)
    requires
        is_free_of(name, '/'),
    ensures
        name.len() > 0 ==> project_of(name) == name,
        name.len() > 0 ==> project_of(dir + seq!['/'] + name) == name,
        project_of(dir.push('/')) == project_of(dir),
        project_of(Seq::empty()) == seq!['?'],
{
    lemma_last_part(dir, '/', name);
    lemma_last_filled(split_on(dir, '/'), name);
    law_text_is_split_at_separators(name, '/', Seq::empty());
    lemma_last_filled(Seq::empty(), name);
    assert(Seq::empty().push(name) =~= seq![name]);
    let none = Seq::<char>::empty();
    assert(is_free_of(none, '/'));
    lemma_last_part(dir, '/', none);
    lemma_last_filled(split_on(dir, '/'), none);
    assert(dir + seq!['/'] + none =~= dir.push('/'));
    law_text_is_split_at_separators(none, '/', none);
    lemma_last_filled(Seq::empty(), none);
    assert(Seq::empty().push(none) =~= seq![none]);
}

/// The binary of a command line is what follows the last slash of its first
/// word.
pub proof fn law_binary_is_named_by_the_first_word(
    dir: Seq<char>,
    name: Seq<char>,
    w: char,
    rest: Seq<char>,
)
    requires
        is_solid(dir),
        is_solid(name),
        is_free_of(name, '/'),
        is_white(w),
        name.len() > 0,
    ensures
        binary_name(name) == name,
        binary_name(name + seq![w] + rest) == name,
        binary_name(dir + seq!['/'] + name) == name,
        binary_name(dir + seq!['/'] + name + seq![w] + rest) == name,
        binary_name(seq![w] + rest) == binary_name(rest),
        binary_name(Seq::empty()).len() == 0,
{
    let path = dir + seq!['/'] + name;
    assert(is_solid(path)) by {
        assert forall|i: int| 0 <= i < path.len() implies !is_white(#[trigger] path[i]) by {
            if i < dir.len() {
                assert(path[i] == dir[i]);
            } else if i > dir.len() {
                assert(path[i] == name[i - dir.len() - 1]);
            }
        }
    }
    law_words_stand_between_white_space(name, w, rest);
    law_words_stand_between_white_space(path, w, rest);
    law_name_follows_the_last_slash(dir, name);
    law_name_follows_the_last_slash(dir, Seq::empty());
    assert(words(Seq::empty()).len() == 0);
}

/// The directory that `lsof` tells of is the first line that begins with an `n`
/// and holds more, without the `n`.
pub proof fn law_first_name_is_the_directory(
    output: &str,
    r: Option<String>,
    i: int,
)
    requires
        call_ensures(cwd_in_lsof, (output,), r),
    ensures
        ({
            let ls = lines(output@);
            &&& 0 <= i < ls.len() && ls[i].len() > 1 && ls[i][0] == 'n' && (forall|k: int|
                0 <= k < i ==> (#[trigger] ls[k]).len() <= 1 || ls[k][0] != 'n') ==> r is Some
                && r->0@ == ls[i].skip(1)
            &&& (forall|k: int|
                0 <= k < ls.len() ==> (#[trigger] ls[k]).len() <= 1 || ls[k][0] != 'n')
                ==> r is None
        }),
{
    lemma_first_named(lines(output@), i);
}

proof fn lemma_first_named(ls: Seq<Seq<char>>, i: int)
    ensures
        0 <= i < ls.len() && ls[i].len() > 1 && ls[i][0] == 'n' && (forall|k: int|
            0 <= k < i ==> (#[trigger] ls[k]).len() <= 1 || ls[k][0] != 'n') ==> first_named(ls)
            == Some(ls[i].skip(1)),
        (forall|k: int| 0 <= k < ls.len() ==> (#[trigger] ls[k]).len() <= 1 || ls[k][0] != 'n')
            ==> first_named(ls) is None,
    decreases ls.len(),
{
    if ls.len() > 0 {
        let rest = ls.drop_first();
        lemma_first_named(rest, i - 1);
        assert forall|k: int| 0 <= k < rest.len() implies #[trigger] rest[k] == ls[k + 1] by {}
        assert(ls[0].drop_first() =~= ls[0].skip(1));
    }
}

/// The processes below one are met from its last child on.
pub proof fn law_last_child_is_met_first(children: Map<u32, Vec<u32>>, pid: u32)
    requires
        children.contains_key(pid),
        children[pid]@.len() > 0,
    ensures
        descendants(children, pid).len() > 0,
        descendants(children, pid)[0] == children[pid]@.last(),
{
    let start = children[pid]@;
    let first = start.last();
    let none = Seq::<u32>::empty();
    assert(!none.contains(first));
    lemma_unseen_shrinks(none, first);
    let next = start.drop_last() + children_of(children, first);
    assert(descendants(children, pid) == walk(children, next, none.push(first)));
    lemma_walk_keeps(children, next, none.push(first));
}

proof fn lemma_walk_keeps(children: Map<u32, Vec<u32>>, pending: Seq<u32>, seen: Seq<u32>)
    ensures
        seen.len() <= walk(children, pending, seen).len(),
        forall|i: int| 0 <= i < seen.len() ==> #[trigger] walk(children, pending, seen)[i] == seen[i],
    decreases unseen(seen), pending.len(),
{
    if pending.len() > 0 {
        let pid = pending.last();
        let rest = pending.drop_last();
        if seen.contains(pid) {
            lemma_walk_keeps(children, rest, seen);
        } else {
            lemma_unseen_shrinks(seen, pid);
            lemma_walk_keeps(children, rest + children_of(children, pid), seen.push(pid));
            assert forall|i: int| 0 <= i < seen.len() implies #[trigger] walk(
                children,
                pending,
                seen,
            )[i] == seen[i] by {
                assert(seen.push(pid)[i] == seen[i]);
            }
        }
    }
}

} // verus!
