//! CPU package power from the RAPL energy counters (`/sys/class/powercap`): the
//! counters only grow (and wrap around), so power comes from the difference between
//! two readings.
use vstd::prelude::*;
use crate::text::{
    chars_of, lemma_lex_total, lemma_lex_transitive, lex_lt, lex_lt_exec, starts_with,
    starts_with_str, trim, trim_chars,
};

verus! {

/// Number of `c` in `s`.
pub open spec fn count_char(s: Seq<char>, c: char) -> nat
    decreases s.len(),
{
    if s.len() == 0 {
        0
    } else {
        count_char(s.drop_last(), c) + if s.last() == c {
            1nat
        } else {
            0nat
        }
    }
}

/// A top-level RAPL domain directory: `intel-rapl:N`, not a subdomain
/// `intel-rapl:N:M`.
pub open spec fn top_domain_spec(fname: Seq<char>) -> bool {
    starts_with(fname, "intel-rapl:"@) && count_char(fname, ':') == 1
}

pub fn is_top_rapl_domain(fname: &str) -> (r: bool)
    ensures
        r == top_domain_spec(fname@),
{
    let f = chars_of(fname);
    if !starts_with_str(f.as_slice(), "intel-rapl:") {
        return false;
    }
    let mut n: usize = 0;
    let mut i: usize = 0;
    assert(f@.take(0) =~= Seq::<char>::empty());
    while i < f.len()
        invariant
            i <= f.len(),
            n == count_char(f@.take(i as int), ':'),
            n <= i,
        decreases f.len() - i,
    {
        assert(f@.take(i + 1).drop_last() =~= f@.take(i as int));
        if f[i] == ':' {
            n = n + 1;
        }
        i = i + 1;
    }
    assert(f@.take(f.len() as int) =~= f@);
    n == 1
}

/// The domain's `name` file names a CPU package (`package-0`, ...).
pub fn names_package(name_file: &str) -> (r: bool)
    ensures
        r == starts_with(trim(name_file@), "package"@),
{
    let c = chars_of(name_file);
    let t = trim_chars(c.as_slice());
    starts_with_str(t.as_slice(), "package")
}

/// A package domain found under powercap: its directory name (`intel-rapl:N`), the
/// path of its `energy_uj` file and its `max_energy_range_uj` when readable.
pub struct RaplPackage {
    pub domain: String,
    pub energy_path: String,
    pub max_range_uj: Option<u64>,
}

pub struct RaplPackageView {
    pub domain: Seq<char>,
    pub energy_path: Seq<char>,
    pub max_range_uj: Option<u64>,
}

impl View for RaplPackage {
    type V = RaplPackageView;

    open spec fn view(&self) -> RaplPackageView {
        RaplPackageView {
            domain: self.domain@,
            energy_path: self.energy_path@,
            max_range_uj: self.max_range_uj,
        }
    }
}

pub open spec fn package_views(v: Seq<RaplPackage>) -> Seq<RaplPackageView> {
    Seq::new(v.len(), |i: int| v[i]@)
}

/// Number of leading packages whose domain does not sort after `d`.
pub open spec fn count_not_after(s: Seq<RaplPackageView>, d: Seq<char>) -> nat
    decreases s.len(),
{
    if s.len() == 0 || lex_lt(d, s[0].domain) {
        0
    } else {
        1 + count_not_after(s.drop_first(), d)
    }
}

/// The packages in order of their domain directory (a stable sort: the order of the
/// paths, which differ only there).
pub open spec fn sort_packages_spec(s: Seq<RaplPackageView>) -> Seq<RaplPackageView>
    decreases s.len(),
{
    if s.len() == 0 {
        seq![]
    } else {
        let r = sort_packages_spec(s.drop_last());
        let k = count_not_after(r, s.last().domain) as int;
        r.take(k).push(s.last()) + r.skip(k)
    }
}

proof fn lemma_count_not_after_le(s: Seq<RaplPackageView>, d: Seq<char>)
    ensures
        count_not_after(s, d) <= s.len(),
    decreases s.len(),
{
    if s.len() > 0 && !lex_lt(d, s[0].domain) {
        lemma_count_not_after_le(s.drop_first(), d);
    }
}

proof fn lemma_sort_packages_len(s: Seq<RaplPackageView>)
    ensures
        sort_packages_spec(s).len() == s.len(),
    decreases s.len(),
{
    if s.len() > 0 {
        lemma_sort_packages_len(s.drop_last());
        lemma_count_not_after_le(sort_packages_spec(s.drop_last()), s.last().domain);
    }
}

/// The packages are in order of their domain directory.
pub open spec fn packages_sorted(s: Seq<RaplPackageView>) -> bool {
    forall|i: int, j: int| 0 <= i < j < s.len() ==> !lex_lt((#[trigger] s[j]).domain, (#[trigger] s[i]).domain)
}

proof fn lemma_count_not_after_bounds(s: Seq<RaplPackageView>, d: Seq<char>)
    requires
        packages_sorted(s),
    ensures
        count_not_after(s, d) <= s.len(),
        forall|i: int| 0 <= i < count_not_after(s, d) ==> !lex_lt(d, (#[trigger] s[i]).domain),
        forall|i: int| count_not_after(s, d) <= i < s.len() ==> lex_lt(d, (#[trigger] s[i]).domain),
    decreases s.len(),
{
    if s.len() > 0 {
        let t = s.drop_first();
        assert(packages_sorted(t)) by {
            assert forall|i: int, j: int| 0 <= i < j < t.len() implies !lex_lt((#[trigger] t[j]).domain, (#[trigger] t[i]).domain) by {
                assert(t[i] == s[i + 1] && t[j] == s[j + 1]);
            }
        }
        lemma_count_not_after_bounds(t, d);
        if lex_lt(d, s[0].domain) {
            assert forall|i: int| 0 <= i < s.len() implies lex_lt(d, (#[trigger] s[i]).domain) by {
                if i > 0 {
                    lemma_lex_total(s[0].domain, s[i].domain);
                    if s[0].domain != s[i].domain {
                        lemma_lex_transitive(d, s[0].domain, s[i].domain);
                    }
                }
            }
        } else {
            assert forall|i: int| 0 <= i < count_not_after(s, d) implies !lex_lt(d, (#[trigger] s[i]).domain) by {
                if i > 0 {
                    assert(s[i] == t[i - 1]);
                }
            }
            assert forall|i: int| count_not_after(s, d) <= i < s.len() implies lex_lt(d, (#[trigger] s[i]).domain) by {
                assert(s[i] == t[i - 1]);
            }
        }
    }
}

proof fn lemma_insert_package(s: Seq<RaplPackageView>, x: RaplPackageView)
    requires
        packages_sorted(s),
    ensures
        packages_sorted(
            s.take(count_not_after(s, x.domain) as int).push(x) + s.skip(count_not_after(s, x.domain) as int),
        ),
        (s.take(count_not_after(s, x.domain) as int).push(x) + s.skip(
            count_not_after(s, x.domain) as int,
        )).to_multiset() == s.to_multiset().insert(x),
{
    let k = count_not_after(s, x.domain) as int;
    lemma_count_not_after_bounds(s, x.domain);
    let r = s.take(k).push(x) + s.skip(k);
    assert forall|i: int, j: int| 0 <= i < j < r.len() implies !lex_lt((#[trigger] r[j]).domain, (#[trigger] r[i]).domain) by {
        if j < k {
            assert(r[i] == s[i] && r[j] == s[j]);
        } else if j == k {
            assert(r[j] == x && r[i] == s[i]);
        } else {
            assert(r[j] == s[j - 1]);
            if i < k {
                assert(r[i] == s[i]);
            } else if i == k {
                assert(r[i] == x);
                lemma_lex_total(x.domain, s[j - 1].domain);
            } else {
                assert(r[i] == s[i - 1]);
            }
        }
    }
    broadcast use vstd::seq_lib::group_to_multiset_ensures;
    vstd::seq_lib::lemma_multiset_commutative(s.take(k).push(x), s.skip(k));
    vstd::seq_lib::lemma_multiset_commutative(s.take(k), s.skip(k));
    assert(s.take(k) + s.skip(k) =~= s);
    assert(r.to_multiset() =~= s.to_multiset().insert(x));
}

/// The reader keeps every package found, as often as it was found, in order of its
/// domain directory.
pub proof fn law_packages_sorted(s: Seq<RaplPackageView>)
    ensures
        sort_packages_spec(s).to_multiset() == s.to_multiset(),
        packages_sorted(sort_packages_spec(s)),
    decreases s.len(),
{
    broadcast use vstd::seq_lib::group_to_multiset_ensures;
    if s.len() == 0 {
        assert(sort_packages_spec(s).to_multiset() =~= s.to_multiset());
    } else {
        law_packages_sorted(s.drop_last());
        lemma_insert_package(sort_packages_spec(s.drop_last()), s.last());
        assert(s.drop_last().push(s.last()) =~= s);
    }
}

fn package_insert_position(sorted: &Vec<RaplPackage>, d: &str) -> (r: usize)
    ensures
        r == count_not_after(package_views(sorted@), d@),
        r <= sorted@.len(),
{
    let ghost s = package_views(sorted@);
    let dc = chars_of(d);
    let mut j: usize = 0;
    assert(s.skip(0) =~= s);
    loop
        invariant
            j <= sorted@.len(),
            s == package_views(sorted@),
            dc@ == d@,
            count_not_after(s, d@) == j + count_not_after(s.skip(j as int), d@),
        decreases sorted@.len() - j,
    {
        if j == sorted.len() {
            return j;
        }
        let e = chars_of(sorted[j].domain.as_str());
        assert(s.skip(j as int)[0] == sorted@[j as int]@);
        if lex_lt_exec(dc.as_slice(), e.as_slice()) {
            return j;
        }
        assert(s.skip(j as int).drop_first() =~= s.skip(j + 1));
        j = j + 1;
    }
}

/// The packages found, ordered by their domain directory.
pub fn sort_packages(found: Vec<RaplPackage>) -> (r: Vec<RaplPackage>)
    ensures
        package_views(r@) == sort_packages_spec(package_views(found@)),
{
    let ghost input = package_views(found@);
    let mut found = found;
    let mut rev: Vec<RaplPackage> = Vec::new();
    while found.len() > 0
        invariant
            package_views(found@) + package_views(rev@).reverse() == input,
        decreases found.len(),
    {
        let ghost before_f = package_views(found@);
        let ghost before_r = package_views(rev@);
        let x = found.pop().unwrap();
        rev.push(x);
        assert(package_views(found@) =~= before_f.drop_last());
        assert(package_views(rev@) =~= before_r.push(x@));
        assert(package_views(found@) + package_views(rev@).reverse() =~= before_f + before_r.reverse());
    }
    assert(package_views(rev@).reverse() =~= input);
    let mut out: Vec<RaplPackage> = Vec::new();
    let ghost total = rev@.len();
    assert(input.take(0) =~= Seq::<RaplPackageView>::empty());
    while rev.len() > 0
        invariant
            total == input.len(),
            rev@.len() <= total,
            package_views(rev@).reverse() == input.skip(total - rev@.len()),
            package_views(out@) == sort_packages_spec(input.take(total - rev@.len())),
        decreases rev.len(),
    {
        let ghost done = total - rev@.len();
        let ghost before_r = package_views(rev@);
        let x = rev.pop().unwrap();
        assert(x@ == input[done]) by {
            assert(before_r.reverse()[0] == before_r[before_r.len() - 1]);
        }
        assert(package_views(rev@) =~= before_r.drop_last());
        assert(package_views(rev@).reverse() =~= input.skip(done + 1)) by {
            assert forall|k: int| 0 <= k < package_views(rev@).len() implies package_views(rev@).reverse()[k] == input.skip(done + 1)[k] by {
                assert(before_r.reverse()[k + 1] == input.skip(done)[k + 1]);
            }
        }
        let pos = package_insert_position(&out, x.domain.as_str());
        let ghost before_o = package_views(out@);
        out.insert(pos, x);
        assert(input.take(done + 1).drop_last() =~= input.take(done));
        assert(input.take(done + 1).last() == input[done]);
        assert(package_views(out@) =~= before_o.take(pos as int).push(x@) + before_o.skip(pos as int));
    }
    assert(input.take(total as int) =~= input);
    out
}

/// Energy consumed between two readings of a counter, in microjoules: the
/// difference, or across a wraparound the distance to the counter's maximum
/// (`max_energy_range_uj`, `u32::MAX` when unknown) plus the new reading.
pub open spec fn energy_delta_spec(prev: u64, cur: u64, max_range: Option<u64>) -> int {
    if cur >= prev {
        cur - prev
    } else {
        let m: int = match max_range {
            Some(m) => m as int,
            None => u32::MAX as int,
        };
        m - prev + cur
    }
}

/// The readings for which the difference stays within `u64`: no wraparound, or a
/// previous reading not above the maximum and a distance that fits.
pub open spec fn energy_delta_ok(prev: u64, cur: u64, max_range: Option<u64>) -> bool {
    let m: int = match max_range {
        Some(m) => m as int,
        None => u32::MAX as int,
    };
    cur >= prev || (prev <= m && m - prev + cur <= u64::MAX)
}

pub fn energy_delta(prev: u64, cur: u64, max_range: Option<u64>) -> (d: u64)
    requires
        energy_delta_ok(prev, cur, max_range),
    ensures
        d == energy_delta_spec(prev, cur, max_range),
{
    if cur >= prev {
        cur - prev
    } else {
        let m = match max_range {
            Some(m) => m,
            None => u32::MAX as u64,
        };
        (m - prev) + cur
    }
}

/// The energy used by each of the first `n` packages that had a previous reading and
/// could be read now, in package order.
pub open spec fn rapl_deltas(
    prev: Seq<Option<u64>>,
    reads: Seq<Option<u64>>,
    ranges: Seq<Option<u64>>,
    n: int,
) -> Seq<u64>
    decreases n,
{
    if n <= 0 {
        seq![]
    } else {
        let d = rapl_deltas(prev, reads, ranges, n - 1);
        match (prev[n - 1], reads[n - 1]) {
            (Some(p), Some(c)) => d.push(energy_delta_spec(p, c, ranges[n - 1]) as u64),
            _ => d,
        }
    }
}

/// The previous readings after `readings` are recorded: each package read now keeps
/// its new reading, the others their old one.
pub open spec fn after_record(prev: Seq<Option<u64>>, readings: Seq<Option<u64>>) -> Seq<Option<u64>> {
    Seq::new(
        readings.len(),
        |i: int| match readings[i] {
            Some(c) => Some(c),
            None => prev[i],
        },
    )
}

/// Recording the same readings twice in a row reports no energy for any package.
pub proof fn law_repeated_reading_reports_nothing(
    prev: Seq<Option<u64>>,
    readings: Seq<Option<u64>>,
    ranges: Seq<Option<u64>>,
    n: int,
)
    requires
        0 <= n <= readings.len(),
        prev.len() == readings.len(),
    ensures
        forall|k: int|
            0 <= k < rapl_deltas(after_record(prev, readings), readings, ranges, n).len() ==> #[trigger] rapl_deltas(
                after_record(prev, readings),
                readings,
                ranges,
                n,
            )[k] == 0,
    decreases n,
{
    if n > 0 {
        law_repeated_reading_reports_nothing(prev, readings, ranges, n - 1);
        let a = after_record(prev, readings);
        let d = rapl_deltas(a, readings, ranges, n - 1);
        assert(a[n - 1] == match readings[n - 1] {
            Some(c) => Some(c),
            None => prev[n - 1],
        });
        match readings[n - 1] {
            Some(c) => {
                assert(energy_delta_spec(c, c, ranges[n - 1]) == 0);
                assert(rapl_deltas(a, readings, ranges, n) == d.push(0u64));
                assert forall|k: int| 0 <= k < d.len() + 1 implies #[trigger] d.push(0u64)[k] == 0 by {
                    if k < d.len() {
                        assert(d.push(0u64)[k] == d[k]);
                    }
                }
            },
            None => {
                assert(rapl_deltas(a, readings, ranges, n) == d);
            },
        }
    }
}

/// Packages without a previous reading report no energy: the first recording after
/// `RaplReader::new` (whose previous readings are all absent) reports nothing, and so
/// does every recording when no package was found (`n == 0`).
pub proof fn law_no_delta_without_previous(
    prev: Seq<Option<u64>>,
    readings: Seq<Option<u64>>,
    ranges: Seq<Option<u64>>,
    n: int,
)
    requires
        forall|i: int| 0 <= i < n ==> (#[trigger] prev[i]) is None,
    ensures
        rapl_deltas(prev, readings, ranges, n) == Seq::<u64>::empty(),
    decreases n,
{
    if n > 0 {
        law_no_delta_without_previous(prev, readings, ranges, n - 1);
        assert(prev[n - 1] is None);
    }
}

/// Energy counters of every CPU package, with the previous reading of each.
pub struct RaplReader {
    /// The packages, in order of their domain directory.
    packages: Vec<RaplPackage>,
    /// Previous reading of each package.
    prev_energy_uj: Vec<Option<u64>>,
}

impl RaplReader {
    /// The packages read, in order.
    pub closed spec fn packages(&self) -> Seq<RaplPackageView> {
        package_views(self.packages@)
    }

    /// The `max_energy_range_uj` of each package.
    pub open spec fn package_ranges(&self) -> Seq<Option<u64>> {
        Seq::new(self.packages().len(), |i: int| self.packages()[i].max_range_uj)
    }

    /// The `energy_uj` path of each package.
    pub open spec fn package_paths(&self) -> Seq<Seq<char>> {
        Seq::new(self.packages().len(), |i: int| self.packages()[i].energy_path)
    }

    /// The previous reading of each package.
    pub closed spec fn previous(&self) -> Seq<Option<u64>> {
        self.prev_energy_uj@
    }

    pub closed spec fn wf(&self) -> bool {
        self.prev_energy_uj@.len() == self.packages@.len()
    }

    /// A reader for the packages found, ordered by domain, with no reading yet.
    pub fn new(found: Vec<RaplPackage>) -> (r: RaplReader)
        ensures
            r.wf(),
            r.packages() == sort_packages_spec(package_views(found@)),
            r.previous() == Seq::new(found@.len(), |i: int| None::<u64>),
    {
        let packages = sort_packages(found);
        proof {
            lemma_sort_packages_len(package_views(found@));
        }
        let n = packages.len();
        let mut prev: Vec<Option<u64>> = Vec::new();
        let mut i: usize = 0;
        while i < n
            invariant
                i <= n,
                prev@ == Seq::new(i as nat, |k: int| None::<u64>),
            decreases n - i,
        {
            prev.push(None);
            i = i + 1;
            assert(prev@ =~= Seq::new(i as nat, |k: int| None::<u64>));
        }
        RaplReader { packages, prev_energy_uj: prev }
    }

    /// The readings that `record` can take: one per package, and, where a package has
    /// a previous reading, an energy difference that fits in `u64`.
    pub open spec fn readings_fit(&self, readings: Seq<Option<u64>>) -> bool {
        &&& readings.len() == self.package_ranges().len()
        &&& forall|i: int|
            0 <= i < readings.len() ==> match (self.previous()[i], #[trigger] readings[i]) {
                (Some(p), Some(c)) => energy_delta_ok(p, c, self.package_ranges()[i]),
                _ => true,
            }
    }

    /// Whether `record` can take `readings`.
    pub fn can_record(&self, readings: &[Option<u64>]) -> (b: bool)
        requires
            self.wf(),
        ensures
            b == self.readings_fit(readings@),
    {
        if readings.len() != self.packages.len() {
            return false;
        }
        let mut i: usize = 0;
        while i < readings.len()
            invariant
                i <= readings.len(),
                readings.len() == self.packages@.len(),
                self.wf(),
                forall|k: int|
                    0 <= k < i ==> match (self.previous()[k], #[trigger] readings@[k]) {
                        (Some(p), Some(c)) => energy_delta_ok(p, c, self.package_ranges()[k]),
                        _ => true,
                    },
            decreases readings.len() - i,
        {
            match (self.prev_energy_uj[i], readings[i]) {
                (Some(p), Some(c)) => {
                    let m: u64 = match self.packages[i].max_range_uj {
                        Some(m) => m,
                        None => 0xFFFF_FFFF,
                    };
                    if !(c >= p || (p <= m && m - p <= u64::MAX - c)) {
                        return false;
                    }
                },
                _ => {},
            }
            i = i + 1;
        }
        true
    }

    /// Whether any package was found.
    pub fn available(&self) -> (b: bool)
        ensures
            b == (self.package_ranges().len() > 0),
    {
        self.packages.len() > 0
    }

    /// Path of the energy file of package `i`.
    pub fn package_path(&self, i: usize) -> (p: &String)
        requires
            i < self.package_paths().len(),
        ensures
            p@ == self.package_paths()[i as int],
    {
        &self.packages[i].energy_path
    }

    pub fn package_count(&self) -> (n: usize)
        ensures
            n == self.package_paths().len(),
            n == self.package_ranges().len(),
    {
        self.packages.len()
    }

    /// Takes one reading of every package (`None` for a counter that could not be
    /// read) and returns, in package order, the energy used since the previous reading
    /// of each package that has one. A package that could not be read keeps its
    /// previous reading.
    pub fn record(&mut self, readings: &[Option<u64>]) -> (deltas: Vec<u64>)
        requires
            old(self).wf(),
            old(self).readings_fit(readings@),
        ensures
            final(self).wf(),
            final(self).packages() == old(self).packages(),
            final(self).previous() == after_record(old(self).previous(), readings@),
            deltas@ == rapl_deltas(old(self).previous(), readings@, old(self).package_ranges(), readings@.len() as int),
    {
        let ghost prev0 = self.prev_energy_uj@;
        let ghost ranges = self.package_ranges();
        let ghost pk = self.packages();
        let mut out: Vec<u64> = Vec::new();
        let mut i: usize = 0;
        let n = readings.len();
        while i < n
            invariant
                n == readings@.len(),
                n == self.packages@.len(),
                i <= n,
                self.prev_energy_uj@.len() == n,
                ranges == self.package_ranges(),
                pk == self.packages(),
                prev0.len() == n,
                forall|k: int|
                    0 <= k < n ==> match (prev0[k], #[trigger] readings@[k]) {
                        (Some(p), Some(c)) => energy_delta_ok(p, c, ranges[k]),
                        _ => true,
                    },
                forall|k: int|
                    0 <= k < i ==> self.prev_energy_uj@[k] == match #[trigger] readings@[k] {
                        Some(c) => Some(c),
                        None => prev0[k],
                    },
                forall|k: int| i <= k < n ==> self.prev_energy_uj@[k] == prev0[k],
                out@ == rapl_deltas(prev0, readings@, ranges, i as int),
            decreases n - i,
        {
            let r = readings[i];
            let p = self.prev_energy_uj[i];
            let ghost before = out@;
            match (p, r) {
                (Some(pv), Some(c)) => {
                    let d = energy_delta(pv, c, self.packages[i].max_range_uj);
                    out.push(d);
                },
                _ => {},
            }
            match r {
                Some(c) => {
                    self.prev_energy_uj.set(i, Some(c));
                },
                None => {},
            }
            i = i + 1;
        }
        out
    }
}

} // verus!
