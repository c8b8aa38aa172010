//! CPU sockets from `/proc/cpuinfo`: the blocks of the file (one per logical CPU) are
//! grouped by their `physical id` into one socket each, with its model, frequency and
//! logical CPU numbers.
use vstd::prelude::*;
use crate::text::{
    chars_of, colon_value, colon_value_exec, first_index, lemma_first_index_at,
    lemma_first_index_none, parse_usize, parse_usize_chars, split_str, split_str_chars,
    string_of, views,
};

verus! {

/// What one `/proc/cpuinfo` block says of its logical CPU; the `cpu MHz` text is kept
/// as written (it is a decimal).
pub struct CpuBlock {
    pub processor: usize,
    pub physical_id: usize,
    pub model: String,
    pub mhz_text: Option<String>,
}

pub struct CpuBlockView {
    pub processor: usize,
    pub physical_id: usize,
    pub model: Seq<char>,
    pub mhz_text: Option<Seq<char>>,
}

impl View for CpuBlock {
    type V = CpuBlockView;

    open spec fn view(&self) -> CpuBlockView {
        CpuBlockView {
            processor: self.processor,
            physical_id: self.physical_id,
            model: self.model@,
            mhz_text: match self.mhz_text {
                Some(t) => Some(t@),
                None => None,
            },
        }
    }
}

pub open spec fn block_views(v: Seq<CpuBlock>) -> Seq<CpuBlockView> {
    Seq::new(v.len(), |i: int| v[i]@)
}

/// The logical CPU of one block: none when its `processor` value is missing or not a
/// number; `physical id` defaults to 0 and `model name` to `"CPU desconhecida"`.
pub open spec fn cpu_block(b: Seq<char>) -> Option<CpuBlockView> {
    match colon_value(b, "processor"@) {
        Some(p) => match parse_usize(p) {
            Some(proc_id) => Some(
                CpuBlockView {
                    processor: proc_id,
                    physical_id: match colon_value(b, "physical id"@) {
                        Some(t) => match parse_usize(t) {
                            Some(v) => v,
                            None => 0,
                        },
                        None => 0,
                    },
                    model: match colon_value(b, "model name"@) {
                        Some(m) => m,
                        None => "CPU desconhecida"@,
                    },
                    mhz_text: colon_value(b, "cpu MHz"@),
                },
            ),
            None => None,
        },
        None => None,
    }
}

/// The logical CPUs of the blocks, in order.
pub open spec fn cpu_blocks_of(bs: Seq<Seq<char>>) -> Seq<CpuBlockView>
    decreases bs.len(),
{
    if bs.len() == 0 {
        seq![]
    } else {
        let p = cpu_blocks_of(bs.drop_last());
        match cpu_block(bs.last()) {
            Some(c) => p.push(c),
            None => p,
        }
    }
}

fn cpu_block_exec(b: &[char]) -> (r: Option<CpuBlock>)
    ensures
        r matches Some(c) ==> cpu_block(b@) == Some(c@),
        r is None ==> cpu_block(b@) is None,
{
    let p = match colon_value_exec(b, "processor") {
        Some(p) => p,
        None => return None,
    };
    let processor = match parse_usize_chars(p.as_slice()) {
        Some(v) => v,
        None => return None,
    };
    let physical_id = match colon_value_exec(b, "physical id") {
        Some(t) => match parse_usize_chars(t.as_slice()) {
            Some(v) => v,
            None => 0,
        },
        None => 0,
    };
    let model = match colon_value_exec(b, "model name") {
        Some(m) => string_of(m.as_slice()),
        None => "CPU desconhecida".to_string(),
    };
    let mhz_text = match colon_value_exec(b, "cpu MHz") {
        Some(t) => Some(string_of(t.as_slice())),
        None => None,
    };
    Some(CpuBlock { processor, physical_id, model, mhz_text })
}

/// The logical CPUs that `/proc/cpuinfo` lists, one per blank-line separated block.
pub fn cpuinfo_blocks(content: &str) -> (r: Vec<CpuBlock>)
    ensures
        block_views(r@) == cpu_blocks_of(split_str(content@, "\n\n"@)),
{
    let cs = chars_of(content);
    let pat = chars_of("\n\n");
    proof {
        reveal_strlit("\n\n");
    }
    let bs = split_str_chars(cs.as_slice(), pat.as_slice());
    let mut out: Vec<CpuBlock> = Vec::new();
    let mut i: usize = 0;
    assert(views(bs@).take(0) =~= Seq::<Seq<char>>::empty());
    while i < bs.len()
        invariant
            i <= bs.len(),
            block_views(out@) == cpu_blocks_of(views(bs@).take(i as int)),
        decreases bs.len() - i,
    {
        assert(views(bs@).take(i + 1).drop_last() =~= views(bs@).take(i as int));
        assert(views(bs@).take(i + 1).last() == bs@[i as int]@);
        let ghost before = block_views(out@);
        match cpu_block_exec(bs[i].as_slice()) {
            Some(c) => {
                out.push(c);
                assert(block_views(out@) =~= before.push(cpu_block(bs@[i as int]@)->0));
            },
            None => {},
        }
        i = i + 1;
    }
    assert(views(bs@).take(bs.len() as int) =~= views(bs@));
    out
}

/// A logical CPU with its frequency in MHz, ready to be grouped.
pub struct CpuEntry {
    pub processor: usize,
    pub physical_id: usize,
    pub model: String,
    pub freq_mhz: u64,
}

pub struct CpuEntryView {
    pub processor: usize,
    pub physical_id: usize,
    pub model: Seq<char>,
    pub freq_mhz: u64,
}

impl View for CpuEntry {
    type V = CpuEntryView;

    open spec fn view(&self) -> CpuEntryView {
        CpuEntryView {
            processor: self.processor,
            physical_id: self.physical_id,
            model: self.model@,
            freq_mhz: self.freq_mhz,
        }
    }
}

pub open spec fn entry_views(v: Seq<CpuEntry>) -> Seq<CpuEntryView> {
    Seq::new(v.len(), |i: int| v[i]@)
}

/// One physical CPU (socket).
#[derive(Debug)]
pub struct SocketInfo {
    pub socket_id: usize,
    pub model: String,
    pub logical_ids: Vec<usize>,
    pub freq_mhz: u64,
}

pub struct SocketView {
    pub socket_id: usize,
    pub model: Seq<char>,
    pub logical_ids: Seq<usize>,
    pub freq_mhz: u64,
}

impl View for SocketInfo {
    type V = SocketView;

    open spec fn view(&self) -> SocketView {
        SocketView {
            socket_id: self.socket_id,
            model: self.model@,
            logical_ids: self.logical_ids@,
            freq_mhz: self.freq_mhz,
        }
    }
}

pub open spec fn socket_views(v: Seq<SocketInfo>) -> Seq<SocketView> {
    Seq::new(v.len(), |i: int| v[i]@)
}

/// Index of the socket numbered `id`.
pub open spec fn socket_index(out: Seq<SocketView>, id: usize) -> Option<int> {
    first_index(out, |s: SocketView| s.socket_id == id)
}

/// Number of leading sockets numbered below `id`.
pub open spec fn count_below(out: Seq<SocketView>, id: usize) -> nat
    decreases out.len(),
{
    if out.len() == 0 || out[0].socket_id >= id {
        0
    } else {
        1 + count_below(out.drop_first(), id)
    }
}

/// The sockets after one more logical CPU: it joins the socket of its physical id (a
/// socket with no frequency yet takes this CPU's); a new socket starts with the CPU's
/// model and frequency and is placed in order of its number.
pub open spec fn place_cpu(out: Seq<SocketView>, e: CpuEntryView) -> Seq<SocketView> {
    match socket_index(out, e.physical_id) {
        Some(j) => out.update(
            j,
            SocketView {
                socket_id: out[j].socket_id,
                model: out[j].model,
                logical_ids: out[j].logical_ids.push(e.processor),
                freq_mhz: if out[j].freq_mhz == 0 {
                    e.freq_mhz
                } else {
                    out[j].freq_mhz
                },
            },
        ),
        None => {
            let k = count_below(out, e.physical_id) as int;
            out.take(k).push(
                SocketView {
                    socket_id: e.physical_id,
                    model: e.model,
                    logical_ids: seq![e.processor],
                    freq_mhz: e.freq_mhz,
                },
            ) + out.skip(k)
        },
    }
}

/// The sockets of a list of logical CPUs, before their CPU lists are sorted.
pub open spec fn group_cpus(es: Seq<CpuEntryView>) -> Seq<SocketView>
    decreases es.len(),
{
    if es.len() == 0 {
        seq![]
    } else {
        place_cpu(group_cpus(es.drop_last()), es.last())
    }
}

/// Number of leading entries at most `x`.
pub open spec fn count_le(s: Seq<usize>, x: usize) -> nat
    decreases s.len(),
{
    if s.len() == 0 || s[0] > x {
        0
    } else {
        1 + count_le(s.drop_first(), x)
    }
}

/// `s` sorted in increasing order (insertion sort).
pub open spec fn sort_ids(s: Seq<usize>) -> Seq<usize>
    decreases s.len(),
{
    if s.len() == 0 {
        seq![]
    } else {
        let r = sort_ids(s.drop_last());
        let k = count_le(r, s.last()) as int;
        r.take(k).push(s.last()) + r.skip(k)
    }
}

/// The sockets of a list of logical CPUs, in increasing order of socket number, each
/// with its logical CPU numbers in increasing order.
pub open spec fn sockets_of(es: Seq<CpuEntryView>) -> Seq<SocketView> {
    let g = group_cpus(es);
    Seq::new(
        g.len(),
        |i: int| SocketView { logical_ids: sort_ids(g[i].logical_ids), ..g[i] },
    )
}

pub proof fn lemma_count_below_le(out: Seq<SocketView>, id: usize)
    ensures
        count_below(out, id) <= out.len(),
    decreases out.len(),
{
    if out.len() > 0 && out[0].socket_id < id {
        lemma_count_below_le(out.drop_first(), id);
    }
}

pub proof fn lemma_count_le_le(s: Seq<usize>, x: usize)
    ensures
        count_le(s, x) <= s.len(),
    decreases s.len(),
{
    if s.len() > 0 && s[0] <= x {
        lemma_count_le_le(s.drop_first(), x);
    }
}

pub proof fn lemma_sort_ids_len(s: Seq<usize>)
    ensures
        sort_ids(s).len() == s.len(),
    decreases s.len(),
{
    if s.len() > 0 {
        lemma_sort_ids_len(s.drop_last());
        lemma_count_le_le(sort_ids(s.drop_last()), s.last());
    }
}

fn find_socket(out: &Vec<SocketInfo>, id: usize) -> (r: Option<usize>)
    ensures
        r matches Some(j) ==> j < out@.len() && socket_index(socket_views(out@), id) == Some(j as int),
        r is None ==> socket_index(socket_views(out@), id) is None,
{
    let ghost p = |s: SocketView| s.socket_id == id;
    let mut j: usize = 0;
    while j < out.len()
        invariant
            j <= out.len(),
            p == (|s: SocketView| s.socket_id == id),
            forall|k: int| 0 <= k < j ==> !p(#[trigger] socket_views(out@)[k]),
        decreases out.len() - j,
    {
        assert(socket_views(out@)[j as int] == out@[j as int]@);
        if out[j].socket_id == id {
            proof {
                lemma_first_index_at(socket_views(out@), p, j as int);
            }
            return Some(j);
        }
        j = j + 1;
    }
    proof {
        lemma_first_index_none(socket_views(out@), p);
    }
    None
}

fn count_below_exec(out: &Vec<SocketInfo>, id: usize) -> (r: usize)
    ensures
        r == count_below(socket_views(out@), id),
        r <= out@.len(),
{
    let ghost s = socket_views(out@);
    let mut j: usize = 0;
    assert(s.skip(0) =~= s);
    while j < out.len() && out[j].socket_id < id
        invariant
            j <= out@.len(),
            s == socket_views(out@),
            count_below(s, id) == j + count_below(s.skip(j as int), id),
        decreases out@.len() - j,
    {
        assert(s.skip(j as int).drop_first() =~= s.skip(j + 1));
        assert(s.skip(j as int)[0] == out@[j as int]@);
        j = j + 1;
    }
    if j < out.len() {
        assert(s.skip(j as int)[0] == out@[j as int]@);
    }
    j
}

/// Sorts a list of CPU numbers in increasing order.
fn sort_ids_exec(v: Vec<usize>) -> (r: Vec<usize>)
    ensures
        r@ == sort_ids(v@),
{
    let mut out: Vec<usize> = Vec::new();
    let mut i: usize = 0;
    assert(v@.take(0) =~= Seq::<usize>::empty());
    while i < v.len()
        invariant
            i <= v.len(),
            out@ == sort_ids(v@.take(i as int)),
        decreases v.len() - i,
    {
        let x = v[i];
        let ghost s = out@;
        let mut j: usize = 0;
        assert(s.skip(0) =~= s);
        while j < out.len() && out[j] <= x
            invariant
                j <= out@.len(),
                s == out@,
                count_le(s, x) == j + count_le(s.skip(j as int), x),
            decreases out@.len() - j,
        {
            assert(s.skip(j as int).drop_first() =~= s.skip(j + 1));
            j = j + 1;
        }
        assert(v@.take(i + 1).drop_last() =~= v@.take(i as int));
        assert(v@.take(i + 1).last() == x);
        out.insert(j, x);
        assert(out@ =~= s.take(j as int).push(x) + s.skip(j as int));
        i = i + 1;
    }
    assert(v@.take(v.len() as int) =~= v@);
    out
}

/// Groups logical CPUs into sockets: one per physical id, in increasing order, each
/// with the model of its first CPU, the first non-zero frequency among its CPUs (0
/// when none) and its CPU numbers in increasing order.
pub fn group_sockets(entries: Vec<CpuEntry>) -> (r: Vec<SocketInfo>)
    ensures
        socket_views(r@) == sockets_of(entry_views(entries@)),
{
    let ghost es = entry_views(entries@);
    let mut out: Vec<SocketInfo> = Vec::new();
    let mut entries = entries;
    let mut rev: Vec<CpuEntry> = Vec::new();
    while entries.len() > 0
        invariant
            entry_views(entries@) + entry_views(rev@).reverse() == es,
        decreases entries.len(),
    {
        let ghost bp = entry_views(entries@);
        let ghost br = entry_views(rev@);
        let x = entries.pop().unwrap();
        rev.push(x);
        assert(entry_views(entries@) =~= bp.drop_last());
        assert(entry_views(rev@) =~= br.push(x@));
        assert(entry_views(entries@) + entry_views(rev@).reverse() =~= bp + br.reverse());
    }
    assert(entry_views(rev@).reverse() =~= es);
    let ghost total = rev@.len();
    assert(es.take(0) =~= Seq::<CpuEntryView>::empty());
    while rev.len() > 0
        invariant
            total == es.len(),
            rev@.len() <= total,
            entry_views(rev@).reverse() == es.skip(total - rev@.len()),
            socket_views(out@) == group_cpus(es.take(total - rev@.len())),
        decreases rev.len(),
    {
        let ghost done = total - rev@.len();
        let ghost br = entry_views(rev@);
        let e = rev.pop().unwrap();
        assert(e@ == es[done]) by {
            assert(br.reverse()[0] == br[br.len() - 1]);
        }
        assert(entry_views(rev@) =~= br.drop_last());
        assert(entry_views(rev@).reverse() =~= es.skip(done + 1)) by {
            assert forall|k: int| 0 <= k < entry_views(rev@).len() implies entry_views(rev@).reverse()[k] == es.skip(done + 1)[k] by {
                assert(br.reverse()[k + 1] == es.skip(done)[k + 1]);
            }
        }
        assert(es.take(done + 1).drop_last() =~= es.take(done));
        assert(es.take(done + 1).last() == es[done]);
        let ghost before = socket_views(out@);
        match find_socket(&out, e.physical_id) {
            Some(j) => {
                let mut s = out.remove(j);
                s.logical_ids.push(e.processor);
                if s.freq_mhz == 0 {
                    s.freq_mhz = e.freq_mhz;
                }
                out.insert(j, s);
                assert(socket_views(out@) =~= place_cpu(before, e@));
            },
            None => {
                let k = count_below_exec(&out, e.physical_id);
                let mut ids: Vec<usize> = Vec::new();
                ids.push(e.processor);
                let s = SocketInfo {
                    socket_id: e.physical_id,
                    model: e.model,
                    logical_ids: ids,
                    freq_mhz: e.freq_mhz,
                };
                assert(ids@ =~= seq![e.processor]);
                out.insert(k, s);
                assert(socket_views(out@) =~= place_cpu(before, e@));
            },
        }
    }
    assert(es.take(total as int) =~= es);
    let ghost g = socket_views(out@);
    // sort the CPU numbers of every socket
    let mut res: Vec<SocketInfo> = Vec::new();
    let mut out = out;
    let mut rev2: Vec<SocketInfo> = Vec::new();
    while out.len() > 0
        invariant
            socket_views(out@) + socket_views(rev2@).reverse() == g,
        decreases out.len(),
    {
        let ghost bp = socket_views(out@);
        let ghost br = socket_views(rev2@);
        let x = out.pop().unwrap();
        rev2.push(x);
        assert(socket_views(out@) =~= bp.drop_last());
        assert(socket_views(rev2@) =~= br.push(x@));
        assert(socket_views(out@) + socket_views(rev2@).reverse() =~= bp + br.reverse());
    }
    assert(socket_views(rev2@).reverse() =~= g);
    let ghost n = g.len();
    while rev2.len() > 0
        invariant
            n == g.len(),
            rev2@.len() <= n,
            socket_views(rev2@).reverse() == g.skip(n - rev2@.len()),
            socket_views(res@) == Seq::new(
                (n - rev2@.len()) as nat,
                |i: int| SocketView { logical_ids: sort_ids(g[i].logical_ids), ..g[i] },
            ),
        decreases rev2.len(),
    {
        let ghost done = n - rev2@.len();
        let ghost br = socket_views(rev2@);
        let s = rev2.pop().unwrap();
        assert(s@ == g[done]) by {
            assert(br.reverse()[0] == br[br.len() - 1]);
        }
        assert(socket_views(rev2@) =~= br.drop_last());
        assert(socket_views(rev2@).reverse() =~= g.skip(done + 1)) by {
            assert forall|k: int| 0 <= k < socket_views(rev2@).len() implies socket_views(rev2@).reverse()[k] == g.skip(done + 1)[k] by {
                assert(br.reverse()[k + 1] == g.skip(done)[k + 1]);
            }
        }
        let SocketInfo { socket_id, model, logical_ids, freq_mhz } = s;
        let sorted = sort_ids_exec(logical_ids);
        let t = SocketInfo { socket_id, model, logical_ids: sorted, freq_mhz };
        assert(t@ == SocketView { logical_ids: sort_ids(g[done].logical_ids), ..g[done] });
        let ghost before = socket_views(res@);
        res.push(t);
        assert(socket_views(res@) =~= before.push(t@));
        assert(socket_views(res@) =~= Seq::new(
            (done + 1) as nat,
            |i: int| SocketView { logical_ids: sort_ids(g[i].logical_ids), ..g[i] },
        ));
    }
    res
}

/// `s` is in increasing order.
pub open spec fn ids_sorted(s: Seq<usize>) -> bool {
    forall|i: int, j: int| 0 <= i < j < s.len() ==> s[i] <= s[j]
}

proof fn lemma_count_le_bounds(s: Seq<usize>, x: usize)
    requires
        ids_sorted(s),
    ensures
        forall|i: int| 0 <= i < count_le(s, x) ==> s[i] <= x,
        count_le(s, x) < s.len() ==> s[count_le(s, x) as int] > x,
    decreases s.len(),
{
    if s.len() > 0 && s[0] <= x {
        let t = s.drop_first();
        assert(ids_sorted(t));
        lemma_count_le_bounds(t, x);
        lemma_count_le_le(t, x);
        assert forall|i: int| 0 <= i < count_le(s, x) implies s[i] <= x by {
            if i > 0 {
                assert(s[i] == t[i - 1]);
            }
        }
    }
}

proof fn lemma_sort_ids_props(s: Seq<usize>)
    ensures
        ids_sorted(sort_ids(s)),
        sort_ids(s).to_multiset() == s.to_multiset(),
    decreases s.len(),
{
    broadcast use vstd::seq_lib::group_to_multiset_ensures;
    if s.len() == 0 {
        assert(sort_ids(s).to_multiset() =~= s.to_multiset());
    } else {
        let r = sort_ids(s.drop_last());
        let x = s.last();
        lemma_sort_ids_props(s.drop_last());
        let k = count_le(r, x) as int;
        lemma_count_le_le(r, x);
        lemma_count_le_bounds(r, x);
        let q = r.take(k).push(x) + r.skip(k);
        assert forall|i: int, j: int| 0 <= i < j < q.len() implies q[i] <= q[j] by {
            if j < k {
                assert(q[i] == r[i] && q[j] == r[j]);
            } else if j == k {
                assert(q[j] == x && q[i] == r[i]);
            } else {
                assert(q[j] == r[j - 1]);
                if i < k {
                    assert(q[i] == r[i]);
                } else if i == k {
                    assert(q[i] == x);
                    assert(r[k] > x);
                    assert(r[k] <= r[j - 1] || k == j - 1);
                } else {
                    assert(q[i] == r[i - 1]);
                }
            }
        }
        vstd::seq_lib::lemma_multiset_commutative(r.take(k).push(x), r.skip(k));
        vstd::seq_lib::lemma_multiset_commutative(r.take(k), r.skip(k));
        assert(r.take(k) + r.skip(k) =~= r);
        assert(s.drop_last().push(x) =~= s);
        assert(q.to_multiset() =~= s.to_multiset());
    }
}

/// Some socket of `out` is numbered `id`.
pub open spec fn has_socket(out: Seq<SocketView>, id: usize) -> bool {
    exists|i: int| 0 <= i < out.len() && out[i].socket_id == id
}

/// Some logical CPU of `es` sits on physical id `id`.
pub open spec fn has_cpu_on(es: Seq<CpuEntryView>, id: usize) -> bool {
    exists|k: int| 0 <= k < es.len() && es[k].physical_id == id
}

/// Socket numbers strictly increase along `out`.
pub open spec fn ids_increasing(out: Seq<SocketView>) -> bool {
    forall|i: int, j: int| 0 <= i < j < out.len() ==> out[i].socket_id < out[j].socket_id
}

proof fn lemma_count_below_bounds(out: Seq<SocketView>, id: usize)
    requires
        ids_increasing(out),
    ensures
        forall|i: int| 0 <= i < count_below(out, id) ==> out[i].socket_id < id,
        count_below(out, id) < out.len() ==> out[count_below(out, id) as int].socket_id >= id,
    decreases out.len(),
{
    if out.len() > 0 && out[0].socket_id < id {
        let t = out.drop_first();
        assert(ids_increasing(t));
        lemma_count_below_bounds(t, id);
        lemma_count_below_le(t, id);
        assert forall|i: int| 0 <= i < count_below(out, id) implies out[i].socket_id < id by {
            if i > 0 {
                assert(out[i] == t[i - 1]);
            }
        }
    }
}

proof fn lemma_place_cpu(out: Seq<SocketView>, e: CpuEntryView)
    requires
        ids_increasing(out),
    ensures
        ids_increasing(place_cpu(out, e)),
        forall|id: usize|
            #[trigger] has_socket(place_cpu(out, e), id)
                <==> (id == e.physical_id || has_socket(out, id)),
{
    let r = place_cpu(out, e);
    match socket_index(out, e.physical_id) {
        Some(j) => {
            let p = |s: SocketView| s.socket_id == e.physical_id;
            assert(exists|i: int| 0 <= i < out.len() && p(out[i]));
            assert(0 <= j < out.len() && out[j].socket_id == e.physical_id);
            assert forall|id: usize|
                #[trigger] has_socket(r, id)
                    <==> (id == e.physical_id || has_socket(out, id)) by {
                if exists|i: int| 0 <= i < out.len() && out[i].socket_id == id {
                    let i = choose|i: int| 0 <= i < out.len() && out[i].socket_id == id;
                    assert(r[i].socket_id == id);
                }
                if id == e.physical_id {
                    assert(r[j].socket_id == id);
                }
            }
        },
        None => {
            let p = |s: SocketView| s.socket_id == e.physical_id;
            assert(!exists|i: int| 0 <= i < out.len() && p(out[i]));
            let k = count_below(out, e.physical_id) as int;
            lemma_count_below_le(out, e.physical_id);
            lemma_count_below_bounds(out, e.physical_id);
            assert forall|i: int, j: int| 0 <= i < j < r.len() implies r[i].socket_id < r[j].socket_id by {
                if j < k {
                    assert(r[i] == out[i] && r[j] == out[j]);
                } else if j == k {
                    assert(r[i] == out[i]);
                } else {
                    assert(r[j] == out[j - 1]);
                    assert(out[j - 1].socket_id != e.physical_id) by {
                        assert(!p(out[j - 1]));
                    }
                    if i < k {
                        assert(r[i] == out[i]);
                    } else if i == k {
                        assert(out[k].socket_id >= e.physical_id);
                        assert(out[k].socket_id != e.physical_id) by {
                            assert(!p(out[k]));
                        }
                    } else {
                        assert(r[i] == out[i - 1]);
                    }
                }
            }
            assert forall|id: usize|
                #[trigger] has_socket(r, id)
                    <==> (id == e.physical_id || has_socket(out, id)) by {
                if exists|i: int| 0 <= i < out.len() && out[i].socket_id == id {
                    let i = choose|i: int| 0 <= i < out.len() && out[i].socket_id == id;
                    if i < k {
                        assert(r[i] == out[i]);
                    } else {
                        assert(r[i + 1] == out[i]);
                    }
                }
                if id == e.physical_id {
                    assert(r[k].socket_id == id);
                }
                if exists|i: int| 0 <= i < r.len() && r[i].socket_id == id {
                    let i = choose|i: int| 0 <= i < r.len() && r[i].socket_id == id;
                    if i < k {
                        assert(r[i] == out[i]);
                    } else if i > k {
                        assert(r[i] == out[i - 1]);
                    }
                }
            }
        },
    }
}

proof fn lemma_group_cpus(es: Seq<CpuEntryView>)
    ensures
        ids_increasing(group_cpus(es)),
        forall|id: usize|
            #[trigger] has_socket(group_cpus(es), id)
                <==> has_cpu_on(es, id),
    decreases es.len(),
{
    if es.len() > 0 {
        let d = es.drop_last();
        lemma_group_cpus(d);
        lemma_place_cpu(group_cpus(d), es.last());
        assert forall|id: usize|
            #[trigger] has_socket(group_cpus(es), id)
                <==> has_cpu_on(es, id) by {
            if exists|k: int| 0 <= k < d.len() && d[k].physical_id == id {
                let k = choose|k: int| 0 <= k < d.len() && d[k].physical_id == id;
                assert(es[k] == d[k]);
            }
            if exists|k: int| 0 <= k < es.len() && es[k].physical_id == id {
                let k = choose|k: int| 0 <= k < es.len() && es[k].physical_id == id;
                if k < d.len() {
                    assert(es[k] == d[k]);
                }
            }
        }
    }
}

/// The sockets that `group_sockets` returns come in strictly increasing order of
/// socket number, there is one for each physical id that occurs among the logical
/// CPUs and none other, and each lists its CPU numbers in increasing order.
pub proof fn law_sockets_ordered_and_complete(es: Seq<CpuEntryView>)
    ensures
        ids_increasing(sockets_of(es)),
        forall|id: usize|
            #[trigger] has_socket(sockets_of(es), id)
                <==> has_cpu_on(es, id),
        forall|i: int| 0 <= i < sockets_of(es).len() ==> ids_sorted(#[trigger] sockets_of(es)[i].logical_ids),
{
    lemma_group_cpus(es);
    let g = group_cpus(es);
    let r = sockets_of(es);
    assert forall|i: int| 0 <= i < r.len() implies ids_sorted(#[trigger] r[i].logical_ids) by {
        lemma_sort_ids_props(g[i].logical_ids);
    }
    assert forall|id: usize| #[trigger] has_socket(r, id) <==> has_cpu_on(es, id) by {
        assert(has_socket(g, id) <==> has_cpu_on(es, id));
        if has_socket(g, id) {
            let i = choose|i: int| 0 <= i < g.len() && g[i].socket_id == id;
            assert(r[i].socket_id == id);
        }
        if has_socket(r, id) {
            let i = choose|i: int| 0 <= i < r.len() && r[i].socket_id == id;
            assert(g[i].socket_id == id);
        }
    }
}

/// Sorting a socket's CPU numbers keeps the same numbers, each as often.
pub proof fn law_sorted_ids_are_a_permutation(ids: Seq<usize>)
    ensures
        sort_ids(ids).to_multiset() == ids.to_multiset(),
        ids_sorted(sort_ids(ids)),
{
    lemma_sort_ids_props(ids);
}

} // verus!
