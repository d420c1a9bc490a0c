//! The processes of the machine, and the trees they form.
use crate::model::kids;
use crate::model::opt_string;
use crate::model::ChildProcess;
use crate::model::ChildView;
use crate::text::base_name;
use crate::text::base_name_of;
use crate::text::chars_of;
use crate::text::lines;
use crate::text::lines_of;
use crate::text::seqs;
use crate::text::slice_of;
use crate::text::split_chars;
use crate::text::split_on;
use crate::text::string_of;
use crate::text::words;
use crate::text::words_of;
use std::collections::HashMap;
use std::collections::HashSet;
use vstd::prelude::*;
use vstd::set_lib::lemma_len_subset;
use vstd::set_lib::set_int_range;

verus! {

broadcast use vstd::std_specs::hash::group_hash_axioms;

/// One process.
#[derive(Debug)]
pub struct ProcInfo {
    pub pid: u32,
    pub ppid: u32,
    pub rss_kb: u64,
    /// The CPU load in thousandths of a percent, rounded up.
    pub cpu_millis: u64,
    pub command: String,
    /// The start time in clock ticks, or 0 where it is not known.
    pub start_ticks: u64,
}

/// The processes of the machine at one moment.
pub struct SharedProcessData {
    pub process_info: HashMap<u32, ProcInfo>,
    pub children_map: HashMap<u32, Vec<u32>>,
    pub ports: HashMap<u32, Vec<u16>>,
    /// Whether this is a moment for costly queries.
    pub slow_tick: bool,
}

/// The first word of a command line, or nothing where there is none.
pub open spec fn first_word(cmd: Seq<char>) -> Seq<char> {
    if words(cmd).len() > 0 {
        words(cmd)[0]
    } else {
        Seq::empty()
    }
}

/// The name of the binary that a command line starts.
pub open spec fn binary_name(cmd: Seq<char>) -> Seq<char> {
    base_name(first_word(cmd))
}

/// The name of the binary that a command line starts.
pub fn binary_of(cmd: &str) -> (r: String)
    ensures
        r@ == binary_name(cmd@),
{
    let ws = words_of(chars_of(cmd).as_slice());
    assert(words(cmd@).len() == ws@.len());
    if ws.len() > 0 {
        assert(words(cmd@)[0] == ws@[0]@);
        string_of(base_name_of(ws[0].as_slice()).as_slice())
    } else {
        let none: Vec<char> = Vec::new();
        assert(none@ =~= first_word(cmd@));
        string_of(base_name_of(none.as_slice()).as_slice())
    }
}

/// Whether the command line starts the binary named `name`.
pub fn cmd_first_token_has_binary(cmd: &str, name: &str) -> (r: bool)
    ensures
        r == (binary_name(cmd@) == name@),
{
    let base = binary_of(cmd);
    crate::text::text_eq(base.as_str(), name)
}

/// The last of the parts that is not empty.
pub open spec fn last_filled(parts: Seq<Seq<char>>) -> Option<Seq<char>>
    decreases parts.len(),
{
    if parts.len() == 0 {
        None
    } else if parts.last().len() > 0 {
        Some(parts.last())
    } else {
        last_filled(parts.drop_last())
    }
}

/// The name of a project by its directory: the last component of the path, or
/// a question mark where it has none.
pub open spec fn project_of(path: Seq<char>) -> Seq<char> {
    match last_filled(split_on(path, '/')) {
        Some(name) => name,
        None => seq!['?'],
    }
}

/// The last component of a path that is not empty.
pub fn last_path_segment(path: &str) -> (r: Option<String>)
    ensures
        opt_string(r) == last_filled(split_on(path@, '/')),
{
    let parts = split_chars(chars_of(path).as_slice(), '/');
    let ghost all = split_on(path@, '/');
    let mut n: usize = parts.len();
    assert(all.take(n as int) =~= all);
    while n > 0
        invariant
            n <= parts@.len(),
            all == seqs(parts@),
            all == split_on(path@, '/'),
            last_filled(all) == last_filled(all.take(n as int)),
        decreases n,
    {
        assert(all.take(n as int).last() == parts@[n - 1]@);
        if parts[n - 1].len() > 0 {
            return Some(string_of(parts[n - 1].as_slice()));
        }
        assert(all.take(n as int).drop_last() =~= all.take(n - 1));
        n -= 1;
    }
    None
}

/// The name of a project by its directory.
pub fn project_name_of(path: &str) -> (r: String)
    ensures
        r@ == project_of(path@),
{
    match last_path_segment(path) {
        Some(name) => name,
        None => {
            let mut r = String::new();
            r.push('?');
            assert(r@ =~= seq!['?']);
            r
        },
    }
}

proof fn lemma_set_of_u32(s: Set<u32>)
    requires
        s.finite(),
    ensures
        s.len() <= 0x1_0000_0000,
{
    let f = |x: u32| x as int;
    let image = s.map(f);
    let range = set_int_range(0, 0x1_0000_0000);
    vstd::set_lib::lemma_int_range(0, 0x1_0000_0000);
    assert(image.subset_of(range));
    assert(vstd::relations::injective(f));
    vstd::set_lib::lemma_map_size(s, image, f);
    lemma_len_subset(image, range);
}

/// How many process numbers are not among those seen.
pub open spec fn unseen(seen: Seq<u32>) -> nat {
    (0x1_0000_0000 - seen.to_set().len()) as nat
}

pub proof fn lemma_unseen_shrinks(seen: Seq<u32>, pid: u32)
    requires
        !seen.contains(pid),
    ensures
        unseen(seen.push(pid)) < unseen(seen),
{
    let s = seen.to_set();
    vstd::seq_lib::seq_to_set_is_finite(seen);
    assert(seen.push(pid).to_set() =~= s.insert(pid)) by {
        assert forall|x: u32| s.insert(pid).contains(x) implies #[trigger] seen.push(
            pid,
        ).to_set().contains(x) by {
            if x == pid {
                assert(seen.push(pid)[seen.len() as int] == x);
            } else {
                let k = choose|k: int| 0 <= k < seen.len() && seen[k] == x;
                assert(seen.push(pid)[k] == x);
            }
        }
    }
    lemma_set_of_u32(s.insert(pid));
}

/// The children that a process is known to have.
pub open spec fn children_of(children: Map<u32, Vec<u32>>, pid: u32) -> Seq<u32> {
    if children.contains_key(pid) {
        children[pid]@
    } else {
        Seq::empty()
    }
}

/// The processes met by a depth-first walk, in order: the processes of
/// `pending`, the last one first, each followed by its children, and none of
/// them twice. Those of `seen` were met before.
pub open spec fn walk(children: Map<u32, Vec<u32>>, pending: Seq<u32>, seen: Seq<u32>) -> Seq<u32>
    decreases unseen(seen), pending.len(),
{
    if pending.len() == 0 {
        seen
    } else {
        let pid = pending.last();
        let rest = pending.drop_last();
        if seen.contains(pid) {
            walk(children, rest, seen)
        } else {
            proof {
                lemma_unseen_shrinks(seen, pid);
            }
            walk(children, rest + children_of(children, pid), seen.push(pid))
        }
    }
}

/// The processes below `pid`, in the order of the walk.
pub open spec fn descendants(children: Map<u32, Vec<u32>>, pid: u32) -> Seq<u32> {
    walk(children, children_of(children, pid), Seq::empty())
}

/// The processes below `pid`, in the order of the walk.
pub fn descendants_of(pid: u32, children_map: &HashMap<u32, Vec<u32>>) -> (r: Vec<u32>)
    ensures
        r@ == descendants(children_map@, pid),
{
    let ghost tree = children_map@;
    let mut order: Vec<u32> = Vec::new();
    let mut visited: HashSet<u32> = HashSet::new();
    let mut pending: Vec<u32> = Vec::new();
    push_children(&mut pending, children_map, pid);
    assert(pending@ =~= children_of(tree, pid));
    assert(order@ =~= Seq::empty());
    while pending.len() > 0
        invariant
            tree == children_map@,
            forall|x: u32| #[trigger] visited@.contains(x) <==> order@.contains(x),
            walk(tree, pending@, order@) == descendants(tree, pid),
        decreases unseen(order@), pending@.len(),
    {
        let ghost before = pending@;
        let ghost met = order@;
        let next = pending.pop();
        match next {
            Some(cpid) => {
                assert(pending@ =~= before.drop_last());
                if !visited.contains(&cpid) {
                    proof {
                        lemma_unseen_shrinks(met, cpid);
                    }
                    visited.insert(cpid);
                    order.push(cpid);
                    assert forall|x: u32| #[trigger] visited@.contains(x) <==> order@.contains(
                        x,
                    ) by {
                        if met.contains(x) {
                            let k = choose|k: int| 0 <= k < met.len() && met[k] == x;
                            assert(order@[k] == x);
                        }
                        if x == cpid {
                            assert(order@[met.len() as int] == x);
                        }
                    }
                    push_children(&mut pending, children_map, cpid);
                }
            },
            None => {},
        }
    }
    order
}

/// Adds the children of `pid` at the end of `pending`.
fn push_children(pending: &mut Vec<u32>, children_map: &HashMap<u32, Vec<u32>>, pid: u32)
    ensures
        final(pending)@ == old(pending)@ + children_of(children_map@, pid),
{
    let ghost start = pending@;
    match children_map.get(&pid) {
        Some(kids) => {
            let mut i: usize = 0;
            assert(start + kids@.take(0) =~= start);
            while i < kids.len()
                invariant
                    i <= kids@.len(),
                    pending@ == start + kids@.take(i as int),
                decreases kids@.len() - i,
            {
                pending.push(kids[i]);
                assert(pending@ =~= start + kids@.take(i + 1));
                i += 1;
            }
            assert(kids@.take(i as int) =~= kids@);
        },
        None => {
            assert(start + Seq::<u32>::empty() =~= start);
        },
    }
}

/// Whether some process below `pid` has a load over `threshold`.
pub open spec fn active_below(
    pid: u32,
    children: Map<u32, Vec<u32>>,
    info: Map<u32, ProcInfo>,
    threshold: u64,
) -> bool {
    exists|i: int|
        #![trigger descendants(children, pid)[i]]
        0 <= i < descendants(children, pid).len() && info.contains_key(
            descendants(children, pid)[i],
        ) && info[descendants(children, pid)[i]].cpu_millis > threshold
}

/// Whether some process below `pid` has a load over `threshold`.
pub fn has_active_descendant(
    pid: u32,
    children_map: &HashMap<u32, Vec<u32>>,
    process_info: &HashMap<u32, ProcInfo>,
    threshold: u64,
) -> (r: bool)
    ensures
        r == active_below(pid, children_map@, process_info@, threshold),
{
    let order = descendants_of(pid, children_map);
    let mut i: usize = 0;
    while i < order.len()
        invariant
            i <= order@.len(),
            order@ == descendants(children_map@, pid),
            forall|k: int|
                0 <= k < i ==> !(process_info@.contains_key(#[trigger] order@[k])
                    && process_info@[order@[k]].cpu_millis > threshold),
        decreases order@.len() - i,
    {
        match process_info.get(&order[i]) {
            Some(p) => {
                if p.cpu_millis > threshold {
                    assert(descendants(children_map@, pid)[i as int] == order@[i as int]);
                    return true;
                }
            },
            None => {},
        }
        i += 1;
    }
    false
}

/// The first port of a process.
pub open spec fn first_port(ports: Map<u32, Vec<u16>>, pid: u32) -> Option<u16> {
    if ports.contains_key(pid) && ports[pid]@.len() > 0 {
        Some(ports[pid]@[0])
    } else {
        None
    }
}

/// The processes of `order` that are known, with their commands, memory and
/// ports.
pub open spec fn described(
    order: Seq<u32>,
    info: Map<u32, ProcInfo>,
    ports: Map<u32, Vec<u16>>,
) -> Seq<ChildView>
    decreases order.len(),
{
    if order.len() == 0 {
        Seq::empty()
    } else {
        let rest = described(order.drop_last(), info, ports);
        let pid = order.last();
        if info.contains_key(pid) {
            rest.push(
                ChildView {
                    pid,
                    command: info[pid].command@,
                    mem_kb: info[pid].rss_kb,
                    port: first_port(ports, pid),
                },
            )
        } else {
            rest
        }
    }
}

/// The known processes below `pid`.
pub open spec fn children_view(pid: u32, shared: SharedProcessData) -> Seq<ChildView> {
    described(
        descendants(shared.children_map@, pid),
        shared.process_info@,
        shared.ports@,
    )
}

/// The known processes below `pid`, each once, in the order of the walk.
pub fn collect_children(pid: u32, shared: &SharedProcessData) -> (r: Vec<ChildProcess>)
    ensures
        kids(r@) == children_view(pid, *shared),
{
    let order = descendants_of(pid, &shared.children_map);
    let mut children: Vec<ChildProcess> = Vec::new();
    let mut i: usize = 0;
    let ghost info = shared.process_info@;
    let ghost ports = shared.ports@;
    assert(order@.take(0) =~= Seq::empty());
    assert(kids(children@) =~= described(order@.take(0), info, ports));
    while i < order.len()
        invariant
            i <= order@.len(),
            info == shared.process_info@,
            ports == shared.ports@,
            kids(children@) == described(order@.take(i as int), info, ports),
        decreases order@.len() - i,
    {
        let cpid = order[i];
        let ghost before = kids(children@);
        assert(order@.take(i + 1).drop_last() =~= order@.take(i as int));
        assert(order@.take(i + 1).last() == cpid);
        match shared.process_info.get(&cpid) {
            Some(cproc) => {
                let port = match shared.ports.get(&cpid) {
                    Some(v) => if v.len() > 0 {
                        Some(v[0])
                    } else {
                        None
                    },
                    None => None,
                };
                let child = ChildProcess {
                    pid: cpid,
                    command: cproc.command.clone(),
                    mem_kb: cproc.rss_kb,
                    port,
                };
                children.push(child);
                assert(kids(children@) =~= before.push(child@));
            },
            None => {},
        }
        i += 1;
    }
    assert(order@.take(i as int) =~= order@);
    children
}

/// The numbers of the processes, each once, in no particular order.
pub fn all_pids(process_info: &HashMap<u32, ProcInfo>) -> (r: Vec<u32>)
    ensures
        r@.no_duplicates(),
        forall|pid: u32| #[trigger] r@.contains(pid) <==> process_info@.contains_key(pid),
{
    let mut out: Vec<u32> = Vec::new();
    for pid in it: process_info.keys()
        invariant
            out@ == it.seq().unref().take(it.index() as int),
            it.seq().unref().no_duplicates(),
            it.seq().unref().to_set() == process_info@.dom(),
            it.index() == it.seq().len() ==> out@.to_set() == process_info@.dom(),
    {
        out.push(*pid);
        assert(out@ =~= it.seq().unref().take(it.index() as int + 1));
        assert(it.seq().unref().take(it.seq().unref().len() as int) =~= it.seq().unref());
    }
    assert(out@.to_set() == process_info@.dom());
    assert forall|pid: u32| #[trigger] out@.contains(pid) <==> process_info@.contains_key(pid) by {
        assert(out@.to_set().contains(pid) == out@.contains(pid));
    }
    out
}

/// Which command lines belong to an agent.
pub trait CommandFilter {
    /// Whether the command line belongs to the agent.
    spec fn wants(cmd: Seq<char>) -> bool;

    /// Whether the command line belongs to the agent.
    fn wants_command(cmd: &str) -> (r: bool)
        ensures
            r == Self::wants(cmd@),
    ;
}

/// Whether `pid` is a process of the agent.
pub open spec fn is_agent<F: CommandFilter>(info: Map<u32, ProcInfo>, pid: u32) -> bool {
    info.contains_key(pid) && F::wants(info[pid].command@)
}

proof fn lemma_contains_after_push(s: Seq<u32>, x: u32, y: u32)
    ensures
        s.push(x).contains(y) <==> s.contains(y) || x == y,
{
    if s.contains(y) {
        let k = choose|k: int| 0 <= k < s.len() && s[k] == y;
        assert(s.push(x)[k] == y);
    }
    if x == y {
        assert(s.push(x)[s.len() as int] == y);
    }
    if s.push(x).contains(y) {
        let k = choose|k: int| 0 <= k < s.push(x).len() && s.push(x)[k] == y;
        if k < s.len() {
            assert(s[k] == y);
        }
    }
}

/// The processes of the agent, each once, in no particular order.
pub fn agent_pids<F: CommandFilter>(process_info: &HashMap<u32, ProcInfo>) -> (r: Vec<u32>)
    ensures
        r@.no_duplicates(),
        forall|pid: u32| #[trigger] r@.contains(pid) <==> is_agent::<F>(process_info@, pid),
{
    let all = all_pids(process_info);
    let ghost info = process_info@;
    let mut out: Vec<u32> = Vec::new();
    let mut i: usize = 0;
    while i < all.len()
        invariant
            i <= all@.len(),
            info == process_info@,
            all@.no_duplicates(),
            forall|pid: u32| #[trigger] all@.contains(pid) <==> info.contains_key(pid),
            out@.no_duplicates(),
            forall|pid: u32| #[trigger]
                out@.contains(pid) <==> all@.take(i as int).contains(pid) && is_agent::<F>(
                    info,
                    pid,
                ),
        decreases all@.len() - i,
    {
        let pid = all[i];
        let ghost before = out@;
        assert(all@.contains(pid));
        assert(all@.take(i + 1) =~= all@.take(i as int).push(pid));
        assert(!all@.take(i as int).contains(pid)) by {
            if all@.take(i as int).contains(pid) {
                let k = choose|k: int|
                    0 <= k < all@.take(i as int).len() && all@.take(i as int)[k] == pid;
                assert(all@[k] == all@[i as int]);
            }
        }
        if let Some(p) = process_info.get(&pid) {
            if F::wants_command(p.command.as_str()) {
                assert(!before.contains(pid));
                out.push(pid);
            }
        }
        assert forall|x: u32| #[trigger] out@.contains(x) <==> all@.take(i + 1).contains(x)
            && is_agent::<F>(info, x) by {
            lemma_contains_after_push(before, pid, x);
            lemma_contains_after_push(all@.take(i as int), pid, x);
        }
        i += 1;
    }
    assert(all@.take(i as int) =~= all@);
    out
}

/// The processes of the agent that are not below `self_pid`, each once, in no
/// particular order.
pub fn agent_pids_outside<F: CommandFilter>(
    process_info: &HashMap<u32, ProcInfo>,
    self_pid: u32,
) -> (r: Vec<u32>)
    ensures
        r@.no_duplicates(),
        forall|pid: u32| #[trigger]
            r@.contains(pid) <==> is_agent::<F>(process_info@, pid) && !ancestors(
                process_info@,
                pid,
            ).contains(self_pid),
{
    let all = agent_pids::<F>(process_info);
    let ghost info = process_info@;
    let mut out: Vec<u32> = Vec::new();
    let mut i: usize = 0;
    while i < all.len()
        invariant
            i <= all@.len(),
            info == process_info@,
            all@.no_duplicates(),
            out@.no_duplicates(),
            forall|pid: u32| #[trigger]
                out@.contains(pid) <==> all@.take(i as int).contains(pid) && !ancestors(
                    info,
                    pid,
                ).contains(self_pid),
        decreases all@.len() - i,
    {
        let pid = all[i];
        let ghost before = out@;
        assert(all@.take(i + 1) =~= all@.take(i as int).push(pid));
        assert(!all@.take(i as int).contains(pid)) by {
            if all@.take(i as int).contains(pid) {
                let k = choose|k: int|
                    0 <= k < all@.take(i as int).len() && all@.take(i as int)[k] == pid;
                assert(all@[k] == all@[i as int]);
            }
        }
        if !is_descendant_of(pid, self_pid, process_info) {
            assert(!before.contains(pid));
            out.push(pid);
        }
        assert forall|x: u32| #[trigger] out@.contains(x) <==> all@.take(i + 1).contains(x)
            && !ancestors(info, x).contains(self_pid) by {
            lemma_contains_after_push(before, pid, x);
            lemma_contains_after_push(all@.take(i as int), pid, x);
        }
        i += 1;
    }
    assert(all@.take(i as int) =~= all@);
    out
}

/// The chain of parents from `cur` on, up to a process without a known parent
/// or one that was met before.
pub open spec fn parents(info: Map<u32, ProcInfo>, cur: u32, seen: Seq<u32>) -> Seq<u32>
    decreases unseen(seen),
{
    if cur == 0 || seen.contains(cur) {
        seen
    } else {
        proof {
            lemma_unseen_shrinks(seen, cur);
        }
        if info.contains_key(cur) && info[cur].ppid != 0 && info[cur].ppid != cur {
            parents(info, info[cur].ppid, seen.push(cur))
        } else {
            seen.push(cur)
        }
    }
}

/// The processes above `pid`, its parent first.
pub open spec fn ancestors(info: Map<u32, ProcInfo>, pid: u32) -> Seq<u32> {
    if info.contains_key(pid) {
        parents(info, info[pid].ppid, Seq::empty())
    } else {
        Seq::empty()
    }
}

/// The processes above `pid`, its parent first.
pub fn ancestor_pids(pid: u32, process_info: &HashMap<u32, ProcInfo>) -> (r: Vec<u32>)
    ensures
        r@ == ancestors(process_info@, pid),
{
    let ghost info = process_info@;
    let mut out: Vec<u32> = Vec::new();
    let mut cur: u32 = match process_info.get(&pid) {
        Some(p) => p.ppid,
        None => {
            assert(out@ =~= Seq::empty());
            return out;
        },
    };
    let mut visited: HashSet<u32> = HashSet::new();
    assert(out@ =~= Seq::empty());
    while cur != 0 && !visited.contains(&cur)
        invariant
            info == process_info@,
            forall|x: u32| #[trigger] visited@.contains(x) <==> out@.contains(x),
            parents(info, cur, out@) == ancestors(info, pid),
        decreases unseen(out@),
    {
        let ghost met = out@;
        proof {
            lemma_unseen_shrinks(met, cur);
        }
        visited.insert(cur);
        out.push(cur);
        assert forall|x: u32| #[trigger] visited@.contains(x) <==> out@.contains(x) by {
            if met.contains(x) {
                let k = choose|k: int| 0 <= k < met.len() && met[k] == x;
                assert(out@[k] == x);
            }
            if x == cur {
                assert(out@[met.len() as int] == x);
            }
        }
        match process_info.get(&cur) {
            Some(p) => {
                if p.ppid != 0 && p.ppid != cur {
                    cur = p.ppid;
                } else {
                    return out;
                }
            },
            None => {
                return out;
            },
        }
    }
    out
}

/// Whether `ancestor` stands above `pid`.
pub fn is_descendant_of(pid: u32, ancestor: u32, process_info: &HashMap<u32, ProcInfo>) -> (r: bool)
    ensures
        r == ancestors(process_info@, pid).contains(ancestor),
{
    let chain = ancestor_pids(pid, process_info);
    let mut i: usize = 0;
    while i < chain.len()
        invariant
            i <= chain@.len(),
            chain@ == ancestors(process_info@, pid),
            forall|k: int| 0 <= k < i ==> chain@[k] != ancestor,
        decreases chain@.len() - i,
    {
        if chain[i] == ancestor {
            return true;
        }
        i += 1;
    }
    false
}

/// Whether each process of the row is a child of the one before it.
pub open spec fn is_line_of_descent(children: Map<u32, Vec<u32>>, line: Seq<u32>) -> bool {
    &&& line.len() >= 2
    &&& forall|i: int|
        #![trigger line[i]]
        0 < i < line.len() ==> children_of(children, line[i - 1]).contains(line[i])
}

/// Whether `to` is below `from`, at any distance.
pub open spec fn is_below(children: Map<u32, Vec<u32>>, from: u32, to: u32) -> bool {
    exists|line: Seq<u32>| #[trigger]
        is_line_of_descent(children, line) && line[0] == from && line.last() == to
}

proof fn lemma_child_is_below(children: Map<u32, Vec<u32>>, from: u32, to: u32)
    requires
        children_of(children, from).contains(to),
    ensures
        is_below(children, from, to),
{
    let line = seq![from, to];
    assert(is_line_of_descent(children, line));
}

proof fn lemma_below_extends(children: Map<u32, Vec<u32>>, from: u32, mid: u32, to: u32)
    requires
        is_below(children, from, mid),
        children_of(children, mid).contains(to),
    ensures
        is_below(children, from, to),
{
    let line = choose|line: Seq<u32>| #[trigger]
        is_line_of_descent(children, line) && line[0] == from && line.last() == mid;
    let longer = line.push(to);
    assert forall|i: int| #![trigger longer[i]] 0 < i < longer.len() implies children_of(
        children,
        longer[i - 1],
    ).contains(longer[i]) by {
        if i < line.len() {
            assert(longer[i] == line[i]);
            assert(longer[i - 1] == line[i - 1]);
        } else {
            assert(longer[i - 1] == line.last());
        }
    }
    assert(is_line_of_descent(children, longer));
    assert(longer.last() == to);
}

proof fn lemma_walk(children: Map<u32, Vec<u32>>, pending: Seq<u32>, seen: Seq<u32>, from: u32)
    requires
        seen.no_duplicates(),
        forall|x: u32| #[trigger] seen.contains(x) ==> is_below(children, from, x),
        forall|x: u32| #[trigger] pending.contains(x) ==> is_below(children, from, x),
        forall|x: u32, y: u32|
            seen.contains(x) && #[trigger] children_of(children, x).contains(y) ==> seen.contains(y)
                || pending.contains(y),
    ensures
        walk(children, pending, seen).no_duplicates(),
        forall|x: u32| #[trigger]
            walk(children, pending, seen).contains(x) ==> is_below(children, from, x),
        forall|x: u32| #[trigger]
            seen.contains(x) ==> walk(children, pending, seen).contains(x),
        forall|x: u32| #[trigger]
            pending.contains(x) ==> walk(children, pending, seen).contains(x),
        forall|x: u32, y: u32|
            walk(children, pending, seen).contains(x) && #[trigger] children_of(
                children,
                x,
            ).contains(y) ==> walk(children, pending, seen).contains(y),
    decreases unseen(seen), pending.len(),
{
    if pending.len() > 0 {
        let pid = pending.last();
        let rest = pending.drop_last();
        assert(pending.contains(pid)) by {
            assert(pending[pending.len() - 1] == pid);
        }
        assert forall|x: u32| #[trigger] pending.contains(x) implies x == pid || rest.contains(
            x,
        ) by {
            let k = choose|k: int| 0 <= k < pending.len() && pending[k] == x;
            if k < rest.len() {
                assert(rest[k] == x);
            }
        }
        assert forall|x: u32| #[trigger] rest.contains(x) implies pending.contains(x) by {
            let k = choose|k: int| 0 <= k < rest.len() && rest[k] == x;
            assert(pending[k] == x);
        }
        if seen.contains(pid) {
            lemma_walk(children, rest, seen, from);
            assert forall|x: u32| #[trigger] pending.contains(x) implies walk(
                children,
                pending,
                seen,
            ).contains(x) by {
                assert(x == pid || rest.contains(x));
            }
        } else {
            lemma_unseen_shrinks(seen, pid);
            let next = rest + children_of(children, pid);
            let met = seen.push(pid);
            assert forall|x: u32| #[trigger] met.contains(x) <==> (x == pid || seen.contains(x)) by {
                if seen.contains(x) {
                    let k = choose|k: int| 0 <= k < seen.len() && seen[k] == x;
                    assert(met[k] == x);
                }
                if x == pid {
                    assert(met[seen.len() as int] == x);
                }
            }
            assert forall|x: u32| #[trigger] next.contains(x) <==> (rest.contains(x)
                || children_of(children, pid).contains(x)) by {
                if rest.contains(x) {
                    let k = choose|k: int| 0 <= k < rest.len() && rest[k] == x;
                    assert(next[k] == x);
                }
                if children_of(children, pid).contains(x) {
                    let kids = children_of(children, pid);
                    let k = choose|k: int| 0 <= k < kids.len() && kids[k] == x;
                    assert(next[rest.len() + k] == x);
                }
            }
            assert forall|x: u32| #[trigger] next.contains(x) implies is_below(
                children,
                from,
                x,
            ) by {
                if children_of(children, pid).contains(x) {
                    lemma_below_extends(children, from, pid, x);
                }
            }
            lemma_walk(children, next, met, from);
            let all = walk(children, pending, seen);
            assert(all == walk(children, next, met));
            assert forall|x: u32| #[trigger] seen.contains(x) implies all.contains(x) by {
                assert(met.contains(x));
            }
            assert forall|x: u32| #[trigger] pending.contains(x) implies all.contains(x) by {
                if x == pid {
                    assert(met.contains(x));
                } else {
                    assert(next.contains(x));
                }
            }
        }
    }
}

/// The walk meets a process if and only if it is below `pid`, at whatever
/// distance, and meets none twice, also where the records of children form a
/// cycle.
pub proof fn law_descendants_are_those_below(children: Map<u32, Vec<u32>>, pid: u32)
    ensures
        descendants(children, pid).no_duplicates(),
        forall|x: u32| #[trigger]
            descendants(children, pid).contains(x) <==> is_below(children, pid, x),
{
    let start = children_of(children, pid);
    assert forall|x: u32| #[trigger] start.contains(x) implies is_below(children, pid, x) by {
        lemma_child_is_below(children, pid, x);
    }
    lemma_walk(children, start, Seq::empty(), pid);
    let all = descendants(children, pid);
    assert forall|x: u32| is_below(children, pid, x) implies #[trigger] all.contains(x) by {
        let line = choose|line: Seq<u32>| #[trigger]
            is_line_of_descent(children, line) && line[0] == pid && line.last() == x;
        lemma_line_is_met(children, pid, line, line.len() - 1);
    }
}

proof fn lemma_line_is_met(children: Map<u32, Vec<u32>>, pid: u32, line: Seq<u32>, i: int)
    requires
        is_line_of_descent(children, line),
        line[0] == pid,
        0 < i < line.len(),
        forall|x: u32|
            #[trigger] children_of(children, pid).contains(x) ==> descendants(
                children,
                pid,
            ).contains(x),
        forall|x: u32, y: u32|
            descendants(children, pid).contains(x) && #[trigger] children_of(children, x).contains(
                y,
            ) ==> descendants(children, pid).contains(y),
    ensures
        descendants(children, pid).contains(line[i]),
    decreases i,
{
    assert(children_of(children, line[i - 1]).contains(line[i]));
    if i > 1 {
        lemma_line_is_met(children, pid, line, i - 1);
    }
}

/// Whether a line of `lsof`'s output names a file: an `n`, and the name.
pub open spec fn names_file(line: Seq<char>) -> bool {
    line.len() > 1 && line[0] == 'n'
}

/// The first name among the lines of `lsof`'s output.
pub open spec fn first_named(ls: Seq<Seq<char>>) -> Option<Seq<char>>
    decreases ls.len(),
{
    if ls.len() == 0 {
        None
    } else if names_file(ls[0]) {
        Some(ls[0].drop_first())
    } else {
        first_named(ls.drop_first())
    }
}

/// The working directory of a process, by what `lsof -Fn` tells of it: the
/// first name.
pub fn cwd_in_lsof(output: &str) -> (r: Option<String>)
    ensures
        opt_string(r) == first_named(lines(output@)),
{
    let ls = lines_of(chars_of(output).as_slice());
    let ghost all = lines(output@);
    let mut i: usize = 0;
    assert(all.skip(0) =~= all);
    while i < ls.len()
        invariant
            i <= ls@.len(),
            all == seqs(ls@),
            all == lines(output@),
            first_named(all) == first_named(all.skip(i as int)),
        decreases ls@.len() - i,
    {
        let line = &ls[i];
        assert(all.skip(i as int)[0] == line@);
        assert(all.skip(i as int).drop_first() =~= all.skip(i + 1));
        if line.len() > 1 && line[0] == 'n' {
            let name = slice_of(line.as_slice(), 1, line.len());
            assert(name@ =~= line@.drop_first());
            return Some(string_of(name.as_slice()));
        }
        i += 1;
    }
    None
}

} // verus!
