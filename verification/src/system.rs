use vstd::prelude::*;
use sysinfo::ProcessStatus;
use vstd::utf8::{encode_utf8, is_char_boundary};
use crate::number::{decimal, format_u64};
use crate::text::{join2, chars_eq, chars_of, contains_chars, contains_seq, lowercase, to_lowercase};

verus! {

#[verifier::external_type_specification]
#[verifier::external_body]
pub struct ExProcessStatus(ProcessStatus);

/// One row of the process table.
pub struct ProcessInfoItem {
    pub name: String,
    pub pid: u32,
    /// The CPU usage in percent, as the bits of an `f32`.
    pub cpu_bits: u32,
    /// The resident memory in MiB, as the bits of a non-negative `f64`; for
    /// such values the order of the bits is the order of the numbers.
    pub mem_bits: u64,
    pub status: ProcessStatus,
}

/// The process table, in display order.
pub struct ProcessInfo {
    pub procs: Vec<ProcessInfoItem>,
}

/// The counters of the network interface on display at the last reading.
pub struct NetworkInfo {
    pub prev_rx: u64,
    pub prev_tx: u64,
    pub network_name: String,
}

/// The totals of one network interface, as the system reports them.
pub struct NetworkSample {
    pub name: String,
    pub total_received: u64,
    pub total_transmitted: u64,
}

/// What the monitor knows of the system: the process table, the process
/// the cursor stands on, and the network counters.
pub struct SystemInfo {
    pub proc_info: ProcessInfo,
    pub selected_pid: u32,
    pub network_info: NetworkInfo,
}

/// A name as the search compares it: itself, or its lowercase mapping.
pub open spec fn fold_case(s: Seq<char>, case_sensitive: bool) -> Seq<char> {
    if case_sensitive {
        s
    } else {
        lowercase(s)
    }
}

pub open spec fn name_matches(name: Seq<char>, pattern: Seq<char>, case_sensitive: bool) -> bool {
    contains_seq(fold_case(name, case_sensitive), fold_case(pattern, case_sensitive))
}

/// The indices of the names that match, in increasing order.
pub open spec fn matching_rows(names: Seq<Seq<char>>, pattern: Seq<char>, case_sensitive: bool) -> Seq<
    usize,
>
    decreases names.len(),
{
    if names.len() == 0 {
        Seq::empty()
    } else {
        let prev = matching_rows(names.drop_last(), pattern, case_sensitive);
        if name_matches(names.last(), pattern, case_sensitive) {
            prev.push((names.len() - 1) as usize)
        } else {
            prev
        }
    }
}

/// The rows that match are exactly the indices listed, and they are listed
/// once each, in increasing order.
pub proof fn lemma_matching_rows(names: Seq<Seq<char>>, pattern: Seq<char>, case_sensitive: bool)
    requires
        names.len() <= usize::MAX,
    ensures
        forall|k: int|
            0 <= k < matching_rows(names, pattern, case_sensitive).len() ==> #[trigger] matching_rows(
                names,
                pattern,
                case_sensitive,
            )[k] < names.len(),
        forall|k1: int, k2: int|
            0 <= k1 < k2 < matching_rows(names, pattern, case_sensitive).len() ==> #[trigger] matching_rows(
                names,
                pattern,
                case_sensitive,
            )[k1] < #[trigger] matching_rows(names, pattern, case_sensitive)[k2],
        forall|i: int|
            0 <= i < names.len() ==> (matching_rows(names, pattern, case_sensitive).contains(
                i as usize,
            ) <==> name_matches(#[trigger] names[i], pattern, case_sensitive)),
    decreases names.len(),
{
    if names.len() > 0 {
        let t = names.drop_last();
        lemma_matching_rows(t, pattern, case_sensitive);
        let prev = matching_rows(t, pattern, case_sensitive);
        let cur = matching_rows(names, pattern, case_sensitive);
        let last = (names.len() - 1) as usize;
        assert(forall|k: int| 0 <= k < prev.len() ==> prev[k] < last);
        if name_matches(names.last(), pattern, case_sensitive) {
            assert(cur == prev.push(last));
            assert forall|k1: int, k2: int| 0 <= k1 < k2 < cur.len() implies #[trigger] cur[k1]
                < #[trigger] cur[k2] by {
                assert(cur[k1] == prev[k1]);
                if k2 < prev.len() {
                    assert(cur[k2] == prev[k2]);
                }
            }
        } else {
            assert(cur == prev);
        }
        assert forall|i: int| 0 <= i < names.len() implies (cur.contains(i as usize)
            <==> name_matches(#[trigger] names[i], pattern, case_sensitive)) by {
            if i < names.len() - 1 {
                assert(names[i] == t[i]);
                if cur.contains(i as usize) {
                    let k = choose|k: int| 0 <= k < cur.len() && cur[k] == i as usize;
                    if k < prev.len() {
                        assert(prev[k] == cur[k]);
                        assert(prev.contains(i as usize));
                    }
                }
                if prev.contains(i as usize) {
                    let k = choose|k: int| 0 <= k < prev.len() && prev[k] == i as usize;
                    assert(cur[k] == prev[k]);
                    assert(cur.contains(i as usize));
                }
            } else {
                if name_matches(names[i], pattern, case_sensitive) {
                    assert(cur[cur.len() - 1] == i as usize);
                    assert(cur.contains(i as usize));
                } else {
                    if cur.contains(i as usize) {
                        let k = choose|k: int| 0 <= k < cur.len() && cur[k] == i as usize;
                        assert(prev[k] < t.len());
                    }
                }
            }
        }
    }
}

/// Searching names and pattern folded to one case is the search of the
/// names and pattern themselves in that case.
pub proof fn lemma_matching_rows_folded(
    names: Seq<Seq<char>>,
    keys: Seq<Seq<char>>,
    pattern: Seq<char>,
    folded: Seq<char>,
    case_sensitive: bool,
)
    requires
        keys.len() == names.len(),
        forall|j: int| 0 <= j < keys.len() ==> #[trigger] keys[j] == fold_case(names[j], case_sensitive),
        folded == fold_case(pattern, case_sensitive),
    ensures
        matching_rows(keys, folded, true) == matching_rows(names, pattern, case_sensitive),
    decreases names.len(),
{
    if names.len() > 0 {
        let kt = keys.drop_last();
        let nt = names.drop_last();
        assert forall|j: int| 0 <= j < kt.len() implies #[trigger] kt[j] == fold_case(
            nt[j],
            case_sensitive,
        ) by {
            assert(kt[j] == keys[j]);
            assert(nt[j] == names[j]);
        }
        lemma_matching_rows_folded(nt, kt, pattern, folded, case_sensitive);
        assert(keys.last() == fold_case(names.last(), case_sensitive));
    }
}

/// The indices of the names that hold `pattern`, in increasing order: the
/// search itself, on names and pattern already in the case they are
/// compared in.
pub fn search_names(names: &Vec<String>, pattern: &str) -> (r: Vec<usize>)
    ensures
        r@ == matching_rows(names@.map_values(|s: String| s@), pattern@, true),
{
    let pat = chars_of(pattern);
    let n = names.len();
    let ghost views = names@.map_values(|s: String| s@);
    let mut r: Vec<usize> = Vec::new();
    for i in 0..n
        invariant
            n == names@.len(),
            views == names@.map_values(|s: String| s@),
            pat@ == pattern@,
            r@ == matching_rows(views.take(i as int), pattern@, true),
    {
        let key = chars_of(names[i].as_str());
        assert(views.take(i + 1).drop_last() =~= views.take(i as int));
        assert(views.take(i + 1).last() == names@[i as int]@);
        if contains_chars(&key, &pat) {
            r.push(i);
        }
    }
    assert(views.take(n as int) =~= views);
    r
}

impl ProcessInfo {
    /// The names of the rows, in order.
    pub open spec fn names(&self) -> Seq<Seq<char>> {
        self.procs@.map_values(|p: ProcessInfoItem| p.name@)
    }

    pub fn uninit() -> (r: Self)
        ensures
            r.procs@.len() == 0,
    {
        ProcessInfo { procs: Vec::new() }
    }
}

impl SystemInfo {
    /// The indices of the rows whose name holds `pattern`, in increasing
    /// order; without `case_sensitive`, both are compared in lowercase.
    pub fn find_processes_by_name(&self, pattern: &str, case_sensitive: bool) -> (r: Vec<usize>)
        ensures
            r@ == matching_rows(self.proc_info.names(), pattern@, case_sensitive),
    {
        let pat = if case_sensitive {
            String::from_str(pattern)
        } else {
            to_lowercase(pattern)
        };
        let procs = &self.proc_info.procs;
        let n = procs.len();
        let ghost names = self.proc_info.names();
        let mut keys: Vec<String> = Vec::new();
        for i in 0..n
            invariant
                n == procs@.len(),
                procs == &self.proc_info.procs,
                names == self.proc_info.names(),
                keys@.len() == i,
                forall|j: int|
                    0 <= j < i ==> (#[trigger] keys@[j])@ == fold_case(names[j], case_sensitive),
        {
            let name = &procs[i].name;
            let key = if case_sensitive {
                name.clone()
            } else {
                to_lowercase(name.as_str())
            };
            keys.push(key);
        }
        let r = search_names(&keys, pat.as_str());
        proof {
            let kv = keys@.map_values(|k: String| k@);
            assert forall|j: int| 0 <= j < kv.len() implies #[trigger] kv[j] == fold_case(
                names[j],
                case_sensitive,
            ) by {
                assert(kv[j] == keys@[j]@);
            }
            lemma_matching_rows_folded(names, kv, pattern@, pat@, case_sensitive);
        }
        r
    }

    /// The first row that shows process `pid`.
    pub fn find_process_index_by_pid(&self, pid: u32) -> (r: Option<usize>)
        ensures
            match r {
                Some(i) => i < self.proc_info.procs@.len() && self.proc_info.procs@[i as int].pid
                    == pid && forall|j: int|
                    0 <= j < i ==> #[trigger] self.proc_info.procs@[j].pid != pid,
                None => forall|j: int|
                    0 <= j < self.proc_info.procs@.len() ==> #[trigger] self.proc_info.procs@[j].pid
                        != pid,
            },
    {
        let n = self.proc_info.procs.len();
        for i in 0..n
            invariant
                n == self.proc_info.procs@.len(),
                forall|j: int| 0 <= j < i ==> #[trigger] self.proc_info.procs@[j].pid != pid,
        {
            if self.proc_info.procs[i].pid == pid {
                return Some(i);
            }
        }
        None
    }

    /// The name of row `index`, if there is such a row.
    pub fn get_process_name(&self, index: usize) -> (r: Option<&str>)
        ensures
            match r {
                Some(s) => index < self.proc_info.procs@.len() && s@
                    == self.proc_info.procs@[index as int].name@,
                None => index >= self.proc_info.procs@.len(),
            },
    {
        if index < self.proc_info.procs.len() {
            Some(self.proc_info.procs[index].name.as_str())
        } else {
            None
        }
    }

    /// Whether some row's name holds `pattern`, both taken in lowercase.
    pub fn has_matching_processes(&self, pattern: &str) -> (r: bool)
        ensures
            r == exists|i: int|
                0 <= i < self.proc_info.procs@.len() && name_matches(
                    #[trigger] self.proc_info.names()[i],
                    pattern@,
                    false,
                ),
    {
        let found = self.find_processes_by_name(pattern, false);
        // Reading the length brings in that it fits in a `usize`.
        let _rows = self.proc_info.procs.len();
        proof {
            let names = self.proc_info.names();
            assert(names.len() == self.proc_info.procs@.len());
            lemma_matching_rows(names, pattern@, false);
            if found@.len() > 0 {
                let i = found@[0] as int;
                assert(found@.contains(i as usize));
                assert(name_matches(names[i], pattern@, false));
            } else {
                assert forall|i: int| 0 <= i < names.len() implies !name_matches(
                    #[trigger] names[i],
                    pattern@,
                    false,
                ) by {
                    assert(!found@.contains(i as usize));
                }
            }
        }
        !found.is_empty()
    }
}


/// The name shown when the system reports no network interface.
pub open spec fn unknown_interface() -> Seq<char> {
    seq!['u', 'n', 'k', 'o', 'w', 'n']
}

/// The first sample named `name`.
pub open spec fn first_named(networks: Seq<NetworkSample>, name: Seq<char>) -> Option<int>
    decreases networks.len(),
{
    if networks.len() == 0 {
        None
    } else {
        match first_named(networks.drop_last(), name) {
            Some(i) => Some(i),
            None => if networks.last().name@ == name {
                Some(networks.len() - 1)
            } else {
                None
            },
        }
    }
}

/// The sample that a speed is read from: the first one named `name`, else
/// the first one, else none.
pub open spec fn chosen_network(networks: Seq<NetworkSample>, name: Seq<char>) -> Option<int> {
    match first_named(networks, name) {
        Some(i) => Some(i),
        None => if networks.len() > 0 {
            Some(0)
        } else {
            None
        },
    }
}

/// `u64::saturating_sub`.
pub open spec fn sat_sub(a: u64, b: u64) -> u64 {
    if a >= b {
        (a - b) as u64
    } else {
        0
    }
}

proof fn lemma_first_named(networks: Seq<NetworkSample>, name: Seq<char>)
    ensures
        match first_named(networks, name) {
            Some(i) => 0 <= i < networks.len() && networks[i].name@ == name && forall|j: int|
                0 <= j < i ==> #[trigger] networks[j].name@ != name,
            None => forall|j: int| 0 <= j < networks.len() ==> #[trigger] networks[j].name@ != name,
        },
    decreases networks.len(),
{
    if networks.len() > 0 {
        let t = networks.drop_last();
        lemma_first_named(t, name);
        assert forall|j: int| 0 <= j < t.len() implies #[trigger] networks[j] == t[j] by {}
    }
}

/// The index of the first sample named `name`.
fn find_named(networks: &Vec<NetworkSample>, name: &str) -> (r: Option<usize>)
    ensures
        r == (match first_named(networks@, name@) {
            Some(i) => Some(i as usize),
            None => None::<usize>,
        }),
{
    proof {
        lemma_first_named(networks@, name@);
    }
    let want = chars_of(name);
    let n = networks.len();
    for i in 0..n
        invariant
            n == networks@.len(),
            want@ == name@,
            forall|j: int| 0 <= j < i ==> #[trigger] networks@[j].name@ != want@,
            match first_named(networks@, name@) {
                Some(i) => 0 <= i < networks@.len() && networks@[i].name@ == name@ && forall|j: int|
                    0 <= j < i ==> #[trigger] networks@[j].name@ != name@,
                None => forall|j: int|
                    0 <= j < networks@.len() ==> #[trigger] networks@[j].name@ != name@,
            },
    {
        let cand = chars_of(networks[i].name.as_str());
        if chars_eq(&cand, &want) {
            return Some(i);
        }
    }
    None
}

/// The network panel's text: the interface name, then on a second line the
/// bytes received and sent since the last reading.
pub open spec fn network_status_line(name: Seq<char>, down: u64, up: u64) -> Seq<char> {
    name + "\nr:"@ + decimal(down as nat) + "bs t: "@ + decimal(up as nat) + "bs"@
}

/// The network panel's text (see `network_status_line`).
pub fn network_status_text(name: &str, down: u64, up: u64) -> (r: String)
    ensures
        r@ == network_status_line(name@, down, up),
{
    let a = join2(name, "\nr:");
    let d = format_u64(down);
    let b = join2(a.as_str(), d.as_str());
    let c = join2(b.as_str(), "bs t: ");
    let u = format_u64(up);
    let e = join2(c.as_str(), u.as_str());
    join2(e.as_str(), "bs")
}

impl NetworkInfo {
    /// Counters at zero, on the first interface of `interface_names`, or on
    /// the name `"unkown"` when there is none.
    pub fn new(interface_names: &Vec<String>) -> (r: Self)
        ensures
            r.prev_rx == 0,
            r.prev_tx == 0,
            r.network_name@ == (if interface_names@.len() == 0 {
                unknown_interface()
            } else {
                interface_names@[0]@
            }),
    {
        let default_name = if interface_names.len() == 0 {
            let s = String::from_str("unkown");
            proof {
                reveal_strlit("unkown");
            }
            s
        } else {
            interface_names[0].clone()
        };
        NetworkInfo { prev_rx: 0, prev_tx: 0, network_name: default_name }
    }

    /// The bytes received and sent since the last reading, on the chosen
    /// interface of `networks` (see `chosen_network`); its totals become the
    /// new reference. `None`, and nothing changes, when `networks` is empty.
    pub fn get_network_speed(&mut self, interface_name: &str, networks: &Vec<NetworkSample>) -> (r:
        Option<(u64, u64)>)
        ensures
            final(self).network_name == old(self).network_name,
            match chosen_network(networks@, interface_name@) {
                Some(i) => {
                    &&& r == Some(
                        (
                            sat_sub(networks@[i].total_received, old(self).prev_rx),
                            sat_sub(networks@[i].total_transmitted, old(self).prev_tx),
                        ),
                    )
                    &&& final(self).prev_rx == networks@[i].total_received
                    &&& final(self).prev_tx == networks@[i].total_transmitted
                },
                None => {
                    &&& r is None
                    &&& final(self).prev_rx == old(self).prev_rx
                    &&& final(self).prev_tx == old(self).prev_tx
                },
            },
    {
        let found = find_named(networks, interface_name);
        let n = networks.len();
        proof {
            lemma_first_named(networks@, interface_name@);
        }
        let chosen = match found {
            Some(k) => Some(k),
            None => if n > 0 {
                Some(0)
            } else {
                None
            },
        };
        match chosen {
            Some(k) => {
                let curr_rx = networks[k].total_received;
                let curr_tx = networks[k].total_transmitted;
                let speed_down = curr_rx.saturating_sub(self.prev_rx);
                let speed_up = curr_tx.saturating_sub(self.prev_tx);
                self.prev_rx = curr_rx;
                self.prev_tx = curr_tx;
                Some((speed_down, speed_up))
            },
            None => None,
        }
    }
}


/// The UTF-8 bytes a row keeps of a process name: the first 35 when there
/// are more.
pub open spec fn shown_name_bytes(bytes: Seq<u8>) -> Seq<u8> {
    if bytes.len() > 35 {
        bytes.take(35)
    } else {
        bytes
    }
}

/// A name that can be cut after 35 bytes: it is no longer, or its 35th
/// byte ends a character. Cutting any other name panics.
pub open spec fn name_cuttable(name: Seq<char>) -> bool {
    encode_utf8(name).len() > 35 ==> is_char_boundary(encode_utf8(name), 35)
}

/// A process name as a row shows it: its first 35 bytes when it is longer.
pub fn truncate_name(name: &str) -> (r: String)
    requires
        name_cuttable(name@),
    ensures
        encode_utf8(r@) == shown_name_bytes(encode_utf8(name@)),
{
    if name.as_bytes().len() > 35 {
        let (head, _rest) = name.split_at(35);
        let r = String::from_str(head);
        assert(encode_utf8(r@) == encode_utf8(head@));
        assert(encode_utf8(name@).take(35) =~= encode_utf8(name@).subrange(0, 35));
        r
    } else {
        String::from_str(name)
    }
}

/// `p` witnesses that `out` is `input` sorted by `mem_bits`, largest
/// first, with rows of equal memory left in their input order.
pub open spec fn is_stable_order(
    input: Seq<ProcessInfoItem>,
    out: Seq<ProcessInfoItem>,
    p: Seq<int>,
) -> bool {
    &&& p.len() == out.len()
    &&& out.len() == input.len()
    &&& forall|i: int| 0 <= i < out.len() ==> 0 <= #[trigger] p[i] < input.len()
    &&& forall|i: int| 0 <= i < out.len() ==> #[trigger] out[i] == input[p[i]]
    &&& forall|i: int, j: int| 0 <= i < j < out.len() ==> #[trigger] p[i] != #[trigger] p[j]
    &&& forall|i: int, j: int|
        0 <= i < j < out.len() ==> (#[trigger] out[i]).mem_bits >= (#[trigger] out[j]).mem_bits
    &&& forall|i: int, j: int|
        0 <= i < j < out.len() && (#[trigger] out[i]).mem_bits == (#[trigger] out[j]).mem_bits
            ==> p[i] < p[j]
}

/// `out` is the stable sort of `input` by memory, largest first: what
/// `sort_by` with a descending comparison gives.
pub open spec fn sorted_by_memory(input: Seq<ProcessInfoItem>, out: Seq<ProcessInfoItem>) -> bool {
    exists|p: Seq<int>| is_stable_order(input, out, p)
}

/// Sorts rows by memory, largest first, keeping rows of equal memory in
/// their order.
pub fn sort_by_memory(items: Vec<ProcessInfoItem>) -> (r: Vec<ProcessInfoItem>)
    ensures
        sorted_by_memory(items@, r@),
{
    let ghost input = items@;
    let mut rest = items;
    let mut out: Vec<ProcessInfoItem> = Vec::new();
    let ghost mut p: Seq<int> = Seq::empty();
    let n = rest.len();
    let mut k: usize = 0;
    while k < n
        invariant
            n == input.len(),
            k <= n,
            rest@ == input.skip(k as int),
            p.len() == out@.len(),
            out@.len() == k,
            forall|i: int| 0 <= i < out@.len() ==> 0 <= #[trigger] p[i] < k,
            forall|i: int| 0 <= i < out@.len() ==> #[trigger] out@[i] == input[p[i]],
            forall|i: int, j: int| 0 <= i < j < out@.len() ==> #[trigger] p[i] != #[trigger] p[j],
            forall|i: int, j: int|
                0 <= i < j < out@.len() ==> (#[trigger] out@[i]).mem_bits >= (
                #[trigger] out@[j]).mem_bits,
            forall|i: int, j: int|
                0 <= i < j < out@.len() && (#[trigger] out@[i]).mem_bits == (
                #[trigger] out@[j]).mem_bits ==> p[i] < p[j],
        decreases n - k,
    {
        let x = rest.remove(0);
        assert(x == input[k as int]);
        assert(rest@ =~= input.skip(k + 1));
        let m = out.len();
        let mut pos: usize = 0;
        while pos < m && out[pos].mem_bits >= x.mem_bits
            invariant
                m == out@.len(),
                pos <= m,
                forall|t: int| 0 <= t < pos ==> (#[trigger] out@[t]).mem_bits >= x.mem_bits,
            decreases m - pos,
        {
            pos = pos + 1;
        }
        assert(forall|t: int| pos <= t < m ==> (#[trigger] out@[t]).mem_bits < x.mem_bits) by {
            if pos < m {
                assert forall|t: int| pos <= t < m implies (#[trigger] out@[t]).mem_bits
                    < x.mem_bits by {
                    if t > pos {
                        assert(out@[pos as int].mem_bits >= out@[t].mem_bits);
                    }
                }
            }
        }
        let ghost old_out = out@;
        let ghost old_p = p;
        out.insert(pos, x);
        proof {
            p = old_p.insert(pos as int, k as int);
            assert forall|i: int|
                #![trigger out@[i]]
                #![trigger p[i]]
                0 <= i < out@.len() implies out@[i] == (if i < pos {
                old_out[i]
            } else if i == pos {
                x
            } else {
                old_out[i - 1]
            }) && p[i] == (if i < pos {
                old_p[i]
            } else if i == pos {
                k as int
            } else {
                old_p[i - 1]
            }) by {}
            assert forall|i: int| 0 <= i < out@.len() implies 0 <= #[trigger] p[i] < k + 1 by {}
            assert forall|i: int| 0 <= i < out@.len() implies #[trigger] out@[i] == input[p[i]] by {
            }
            assert forall|i: int, j: int| 0 <= i < j < out@.len() implies #[trigger] p[i]
                != #[trigger] p[j] by {}
            assert forall|i: int, j: int| 0 <= i < j < out@.len() implies (
            #[trigger] out@[i]).mem_bits >= (#[trigger] out@[j]).mem_bits by {}
            assert forall|i: int, j: int|
                0 <= i < j < out@.len() && (#[trigger] out@[i]).mem_bits == (
                #[trigger] out@[j]).mem_bits implies p[i] < p[j] by {}
        }
        k = k + 1;
    }
    assert(is_stable_order(input, out@, p));
    out
}


/// `row` is how the table shows the reading `sample`: the same process and
/// figures, under its name cut to 35 bytes.
pub open spec fn shows_sample(sample: ProcessInfoItem, row: ProcessInfoItem) -> bool {
    &&& row.pid == sample.pid
    &&& row.cpu_bits == sample.cpu_bits
    &&& row.mem_bits == sample.mem_bits
    &&& row.status == sample.status
    &&& encode_utf8(row.name@) == shown_name_bytes(encode_utf8(sample.name@))
}

/// `table` is the process table built from `samples`: each reading shown
/// as a row, the rows sorted by memory, largest first, stably.
pub open spec fn table_of(samples: Seq<ProcessInfoItem>, table: Seq<ProcessInfoItem>) -> bool {
    exists|rows: Seq<ProcessInfoItem>|
        {
            &&& rows.len() == samples.len()
            &&& forall|i: int| 0 <= i < rows.len() ==> shows_sample(samples[i], #[trigger] rows[i])
            &&& sorted_by_memory(rows, table)
        }
}

impl SystemInfo {
    /// An empty process table, no process chosen, and the network counters
    /// of `NetworkInfo::new`.
    pub fn new(interface_names: &Vec<String>) -> (r: Self)
        ensures
            r.proc_info.procs@.len() == 0,
            r.selected_pid == 0,
            r.network_info.prev_rx == 0,
            r.network_info.prev_tx == 0,
            r.network_info.network_name@ == (if interface_names@.len() == 0 {
                unknown_interface()
            } else {
                interface_names@[0]@
            }),
    {
        SystemInfo {
            proc_info: ProcessInfo::uninit(),
            selected_pid: 0,
            network_info: NetworkInfo::new(interface_names),
        }
    }

    /// Replaces the process table with one built from the readings
    /// `samples` (see `table_of`).
    pub fn refresh(&mut self, samples: Vec<ProcessInfoItem>)
        requires
            forall|i: int| 0 <= i < samples@.len() ==> name_cuttable(#[trigger] samples@[i].name@),
        ensures
            table_of(samples@, final(self).proc_info.procs@),
            final(self).selected_pid == old(self).selected_pid,
            final(self).network_info == old(self).network_info,
    {
        let ghost input = samples@;
        let mut rest = samples;
        let n = rest.len();
        let mut rows: Vec<ProcessInfoItem> = Vec::new();
        let mut k: usize = 0;
        while k < n
            invariant
                n == input.len(),
                k <= n,
                rest@ == input.skip(k as int),
                rows@.len() == k,
                forall|i: int| 0 <= i < input.len() ==> name_cuttable(#[trigger] input[i].name@),
                forall|i: int| 0 <= i < k ==> shows_sample(input[i], #[trigger] rows@[i]),
            decreases n - k,
        {
            let x = rest.remove(0);
            assert(x == input[k as int]);
            assert(rest@ =~= input.skip(k + 1));
            let name = truncate_name(x.name.as_str());
            rows.push(
                ProcessInfoItem {
                    name,
                    pid: x.pid,
                    cpu_bits: x.cpu_bits,
                    mem_bits: x.mem_bits,
                    status: x.status,
                },
            );
            k = k + 1;
        }
        let ghost shown = rows@;
        let sorted = sort_by_memory(rows);
        self.proc_info.procs = sorted;
        assert(table_of(input, self.proc_info.procs@)) by {
            assert(shown.len() == input.len());
            assert(sorted_by_memory(shown, self.proc_info.procs@));
        }
    }
}

/// A second reading of the same totals shows no traffic, and the speeds
/// never exceed the totals.
pub proof fn law_speed_of_unchanged_totals(rx: u64, tx: u64, prev_rx: u64, prev_tx: u64)
    ensures
        sat_sub(rx, rx) == 0,
        sat_sub(tx, tx) == 0,
        sat_sub(rx, prev_rx) <= rx,
        sat_sub(tx, prev_tx) <= tx,
{
}

/// A row name takes at most 35 bytes, and keeps the name's first bytes.
pub proof fn law_shown_name_is_prefix(bytes: Seq<u8>)
    ensures
        shown_name_bytes(bytes).len() <= 35,
        shown_name_bytes(bytes) == bytes.take(shown_name_bytes(bytes).len() as int),
        bytes.len() <= 35 ==> shown_name_bytes(bytes) == bytes,
{
    assert(bytes.take(bytes.len() as int) =~= bytes);
}

} // verus!
