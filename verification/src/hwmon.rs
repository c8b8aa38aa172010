//! hwmon chips and their fan channels (`/sys/class/hwmon`), and the fan control
//! decisions made on top of them.
use vstd::prelude::*;
use crate::text::{
    append_chars, chars_eq, chars_of, decimal, decimal_chars, digit_char, ends_with,
    ends_with_chars, slice_chars, starts_with, starts_with_str, string_of, string_seq, trim,
    trim_chars,
};

verus! {

/// How many of the first `i` names equal `names[i]`.
pub open spec fn earlier_count(names: Seq<Seq<char>>, i: int) -> nat {
    count_equal(names.take(i), names[i])
}

pub open spec fn count_equal(s: Seq<Seq<char>>, x: Seq<char>) -> nat
    decreases s.len(),
{
    if s.len() == 0 {
        0
    } else {
        count_equal(s.drop_last(), x) + if s.last() == x {
            1nat
        } else {
            0nat
        }
    }
}

/// The key of the `k`-th chip (from 0) named `name`: the name itself the first time,
/// then `name_1`, `name_2`, ...
pub open spec fn chip_key(name: Seq<char>, k: nat) -> Seq<char> {
    if k == 0 {
        name
    } else {
        name + seq!['_'] + decimal(k)
    }
}

/// The keys of chips named `names`, in order: every name gets its occurrence number.
pub open spec fn chip_keys(names: Seq<Seq<char>>) -> Seq<Seq<char>> {
    Seq::new(names.len(), |i: int| chip_key(names[i], earlier_count(names, i)))
}

proof fn lemma_count_equal_le(s: Seq<Seq<char>>, x: Seq<char>)
    ensures
        count_equal(s, x) <= s.len(),
    decreases s.len(),
{
    if s.len() > 0 {
        lemma_count_equal_le(s.drop_last(), x);
    }
}

proof fn lemma_decimal_digits(n: nat)
    ensures
        decimal(n).len() >= 1,
        n >= 10 ==> decimal(n).len() >= 2,
        forall|i: int| 0 <= i < decimal(n).len() ==> 48 <= (#[trigger] decimal(n)[i]) as u32 <= 57,
    decreases n,
{
    if n >= 10 {
        lemma_decimal_digits(n / 10);
        let d = decimal(n / 10);
        assert forall|i: int| 0 <= i < decimal(n).len() implies 48 <= (#[trigger] decimal(n)[i]) as u32 <= 57 by {
            if i < d.len() {
                assert(decimal(n)[i] == d[i]);
            }
        }
    }
}

proof fn lemma_digit_char_injective(x: nat, y: nat)
    requires
        x < 10,
        y < 10,
        digit_char(x) == digit_char(y),
    ensures
        x == y,
{
    assert((digit_char(x) as u32) == x + 48);
    assert((digit_char(y) as u32) == y + 48);
}

proof fn lemma_decimal_injective(a: nat, b: nat)
    requires
        decimal(a) == decimal(b),
    ensures
        a == b,
    decreases a,
{
    lemma_decimal_digits(a);
    lemma_decimal_digits(b);
    if a >= 10 && b >= 10 {
        assert(decimal(a).drop_last() =~= decimal(a / 10));
        assert(decimal(b).drop_last() =~= decimal(b / 10));
        lemma_decimal_injective(a / 10, b / 10);
        assert(decimal(a) == decimal(a / 10).push(digit_char(a % 10)));
        assert(decimal(b) == decimal(b / 10).push(digit_char(b % 10)));
        assert(decimal(a).last() == digit_char(a % 10));
        assert(decimal(b).last() == digit_char(b % 10));
        assert(digit_char(a % 10) == digit_char(b % 10));
        lemma_digit_char_injective(a % 10, b % 10);
    } else if a < 10 && b < 10 {
        assert(digit_char(a) == decimal(a)[0]);
        assert(digit_char(b) == decimal(b)[0]);
        lemma_digit_char_injective(a, b);
    } else {
        assert(decimal(a).len() != decimal(b).len());
    }
}

proof fn lemma_count_equal_take(s: Seq<Seq<char>>, i: int, j: int)
    requires
        0 <= i < j <= s.len(),
    ensures
        count_equal(s.take(j), s[i]) >= count_equal(s.take(i), s[i]) + 1,
    decreases j - i,
{
    if j == i + 1 {
        assert(s.take(j).drop_last() =~= s.take(i));
        assert(s.take(j).last() == s[i]);
    } else {
        lemma_count_equal_take(s, i, j - 1);
        assert(s.take(j).drop_last() =~= s.take(j - 1));
    }
}

/// Same-named chips later in the list get larger occurrence numbers.
proof fn lemma_earlier_count_grows(names: Seq<Seq<char>>, i: int, j: int)
    requires
        0 <= i < j < names.len(),
        names[i] == names[j],
    ensures
        earlier_count(names, i) < earlier_count(names, j),
{
    lemma_count_equal_take(names, i, j);
}

/// Two suffixed keys are equal only for the same name and number.
proof fn lemma_suffixed_keys(n1: Seq<char>, k1: nat, n2: Seq<char>, k2: nat)
    requires
        k1 > 0,
        k2 > 0,
        chip_key(n1, k1) == chip_key(n2, k2),
    ensures
        n1 == n2,
        k1 == k2,
{
    let a = chip_key(n1, k1);
    let b = chip_key(n2, k2);
    lemma_decimal_digits(k1);
    lemma_decimal_digits(k2);
    assert(a == n1 + seq!['_'] + decimal(k1));
    assert(b == n2 + seq!['_'] + decimal(k2));
    assert(a.len() == n1.len() + 1 + decimal(k1).len());
    assert(b.len() == n2.len() + 1 + decimal(k2).len());
    if n1.len() < n2.len() {
        assert(b[n2.len() as int] == '_');
        assert(a[n2.len() as int] == decimal(k1)[n2.len() - n1.len() - 1]);
    } else if n2.len() < n1.len() {
        assert(a[n1.len() as int] == '_');
        assert(b[n1.len() as int] == decimal(k2)[n1.len() - n2.len() - 1]);
    } else {
        assert(n1 =~= a.take(n1.len() as int));
        assert(n2 =~= b.take(n2.len() as int));
        assert(decimal(k1) =~= a.skip(n1.len() as int + 1));
        assert(decimal(k2) =~= b.skip(n2.len() as int + 1));
        lemma_decimal_injective(k1, k2);
    }
}

/// Every chip gets its own key, as long as no chip is named like another chip's
/// name followed by `_` and a number (`nct6775_1` beside `nct6775`).
pub proof fn law_chip_keys_distinct(names: Seq<Seq<char>>)
    requires
        forall|i: int, j: int, k: nat|
            #![trigger names[i], names[j], decimal(k)]
            0 <= i < names.len() && 0 <= j < names.len() && k >= 1 ==> names[i] != names[j] + seq!['_']
                + decimal(k),
    ensures
        chip_keys(names).len() == names.len(),
        forall|i: int, j: int|
            0 <= i < j < names.len() ==> #[trigger] chip_keys(names)[i] != #[trigger] chip_keys(names)[j],
{
    assert forall|i: int, j: int| 0 <= i < j < names.len() implies #[trigger] chip_keys(names)[i]
        != #[trigger] chip_keys(names)[j] by {
        let ki = earlier_count(names, i);
        let kj = earlier_count(names, j);
        if chip_keys(names)[i] == chip_keys(names)[j] {
            if ki == 0 && kj == 0 {
                lemma_earlier_count_grows(names, i, j);
            } else if ki > 0 && kj > 0 {
                lemma_suffixed_keys(names[i], ki, names[j], kj);
                lemma_earlier_count_grows(names, i, j);
            } else if ki == 0 {
                assert(names[i] == names[j] + seq!['_'] + decimal(kj));
            } else {
                assert(names[j] == names[i] + seq!['_'] + decimal(ki));
            }
        }
    }
}

/// Keys for the hwmon chips read in path order, so that chips with the same name
/// stay apart (`nct6775`, `nct6775_1`, ...).
pub fn unique_chip_names(names: &[String]) -> (r: Vec<String>)
    ensures
        string_seq(r@) == chip_keys(string_seq(names@)),
{
    let ghost ns = string_seq(names@);
    let mut cs: Vec<Vec<char>> = Vec::new();
    let mut j: usize = 0;
    while j < names.len()
        invariant
            j <= names.len(),
            ns == string_seq(names@),
            cs@.len() == j,
            forall|k: int| 0 <= k < j ==> #[trigger] cs@[k]@ == ns[k],
        decreases names.len() - j,
    {
        cs.push(chars_of(names[j].as_str()));
        j = j + 1;
    }
    let mut out: Vec<String> = Vec::new();
    let mut i: usize = 0;
    while i < names.len()
        invariant
            i <= names.len(),
            ns == string_seq(names@),
            cs@.len() == names@.len(),
            forall|k: int| 0 <= k < names@.len() ==> #[trigger] cs@[k]@ == ns[k],
            string_seq(out@) == chip_keys(ns).take(i as int),
        decreases names.len() - i,
    {
        let mut c: u64 = 0;
        let mut k: usize = 0;
        assert(ns.take(i as int).take(0) =~= Seq::<Seq<char>>::empty());
        while k < i
            invariant
                k <= i < names@.len(),
                ns == string_seq(names@),
                cs@.len() == names@.len(),
                forall|m: int| 0 <= m < names@.len() ==> #[trigger] cs@[m]@ == ns[m],
                c == count_equal(ns.take(i as int).take(k as int), ns[i as int]),
                c <= k,
            decreases i - k,
        {
            assert(ns.take(i as int).take(k + 1).drop_last() =~= ns.take(i as int).take(k as int));
            assert(ns.take(i as int).take(k + 1).last() == ns[k as int]);
            if chars_eq(cs[k].as_slice(), cs[i].as_slice()) {
                c = c + 1;
            }
            k = k + 1;
        }
        assert(ns.take(i as int).take(i as int) =~= ns.take(i as int));
        let key = if c == 0 {
            string_of(cs[i].as_slice())
        } else {
            let mut v = slice_chars(cs[i].as_slice(), 0, cs[i].len());
            v.push('_');
            let d = decimal_chars(c);
            append_chars(&mut v, d.as_slice());
            assert(v@ =~= ns[i as int] + seq!['_'] + decimal(c as nat));
            string_of(v.as_slice())
        };
        let ghost before = string_seq(out@);
        out.push(key);
        assert(string_seq(out@) =~= before.push(chip_key(ns[i as int], earlier_count(ns, i as int))));
        i = i + 1;
        assert(chip_keys(ns).take(i as int) =~= chip_keys(ns).take(i - 1).push(chip_keys(ns)[i - 1]));
    }
    assert(chip_keys(ns).take(names.len() as int) =~= chip_keys(ns));
    out
}

/// The channel number of a sensor file `{kind}N_input` (such as `temp1_input` or
/// `fan2_input`), as written.
pub open spec fn channel_of(file: Seq<char>, kind: Seq<char>) -> Option<Seq<char>> {
    if starts_with(file, kind) && ends_with(file.skip(kind.len() as int), "_input"@) {
        let rest = file.skip(kind.len() as int);
        Some(rest.take(rest.len() - 6))
    } else {
        None
    }
}

pub fn sensor_channel(file: &str, kind: &str) -> (r: Option<String>)
    ensures
        r matches Some(c) ==> channel_of(file@, kind@) == Some(c@),
        r is None ==> channel_of(file@, kind@) is None,
{
    let f = chars_of(file);
    let k = chars_of(kind);
    if !starts_with_str(f.as_slice(), kind) {
        return None;
    }
    let rest = slice_chars(f.as_slice(), k.len(), f.len());
    assert(rest@ =~= f@.skip(k@.len() as int));
    let suffix = chars_of("_input");
    proof {
        reveal_strlit("_input");
    }
    if !ends_with_chars(rest.as_slice(), suffix.as_slice()) {
        return None;
    }
    let idx = slice_chars(rest.as_slice(), 0, rest.len() - 6);
    assert(idx@ =~= rest@.take(rest@.len() - 6));
    Some(string_of(idx.as_slice()))
}

/// One fan channel of a hwmon chip.
#[derive(Clone, Debug)]
pub struct FanSensor {
    pub id: String,
    pub label: String,
    pub rpm: i64,
    pub pct: i32,
    pub pwm_path: String,
    pub pwm_enable_path: Option<String>,
    pub chip: String,
}

pub struct FanSensorView {
    pub id: Seq<char>,
    pub label: Seq<char>,
    pub rpm: i64,
    pub pct: i32,
    pub pwm_path: Seq<char>,
    pub pwm_enable_path: Option<Seq<char>>,
    pub chip: Seq<char>,
}

impl View for FanSensor {
    type V = FanSensorView;

    open spec fn view(&self) -> FanSensorView {
        FanSensorView {
            id: self.id@,
            label: self.label@,
            rpm: self.rpm,
            pct: self.pct,
            pwm_path: self.pwm_path@,
            pwm_enable_path: match self.pwm_enable_path {
                Some(p) => Some(p@),
                None => None,
            },
            chip: self.chip@,
        }
    }
}

/// The fan of channel `idx` of chip `chip`: id `{chip}_fan{idx}`, its label file's
/// text trimmed or `Fan {idx}` when there is none, the RPM reading or 0, the duty in percent, the PWM file and
/// the enable file when it exists.
pub open spec fn fan_sensor_spec(
    chip: Seq<char>,
    idx: Seq<char>,
    rpm: Option<i64>,
    label: Option<Seq<char>>,
    pct: i32,
    pwm_path: Seq<char>,
    enable_path: Option<Seq<char>>,
) -> FanSensorView {
    FanSensorView {
        id: chip + "_fan"@ + idx,
        label: match label {
            Some(l) => trim(l),
            None => "Fan "@ + idx,
        },
        rpm: match rpm {
            Some(r) => r,
            None => 0,
        },
        pct,
        pwm_path,
        pwm_enable_path: enable_path,
        chip,
    }
}

pub open spec fn opt_string_view(o: Option<String>) -> Option<Seq<char>> {
    match o {
        Some(s) => Some(s@),
        None => None,
    }
}

pub fn fan_sensor(
    chip: &str,
    idx: &str,
    rpm: Option<i64>,
    label_file: Option<&str>,
    pct: i32,
    pwm_path: String,
    enable_path: Option<String>,
) -> (f: FanSensor)
    ensures
        f@ == fan_sensor_spec(
            chip@,
            idx@,
            rpm,
            match label_file {
                Some(l) => Some(l@),
                None => None,
            },
            pct,
            pwm_path@,
            opt_string_view(enable_path),
        ),
{
    let mut id = chip.to_string();
    id.append("_fan");
    id.append(idx);
    let label = match label_file {
        Some(l) => {
            let c = chars_of(l);
            let t = trim_chars(c.as_slice());
            string_of(t.as_slice())
        },
        None => {
            let mut l = "Fan ".to_string();
            l.append(idx);
            l
        },
    };
    FanSensor {
        id,
        label,
        rpm: match rpm {
            Some(r) => r,
            None => 0,
        },
        pct,
        pwm_path,
        pwm_enable_path: enable_path,
        chip: chip.to_string(),
    }
}

/// The PWM value (0-255) for a fan speed in percent, as `set_fan_speed` writes it:
/// the percentage clamped to 0..100, times 255/100, rounded half up.
pub open spec fn speed_to_pwm_spec(speed_percent: i32) -> int {
    let p: int = if speed_percent < 0 {
        0
    } else if speed_percent > 100 {
        100
    } else {
        speed_percent as int
    };
    (255 * p + 50) / 100
}

pub fn speed_to_pwm(speed_percent: i32) -> (v: i32)
    ensures
        v == speed_to_pwm_spec(speed_percent),
        0 <= v <= 255,
{
    let p: i32 = if speed_percent < 0 {
        0
    } else if speed_percent > 100 {
        100
    } else {
        speed_percent
    };
    (255 * p + 50) / 100
}

/// The label of temperature channel `idx`: its label file's text trimmed, or
/// `Temp {idx}` when there is none.
pub fn temp_label(idx: &str, label_file: Option<&str>) -> (r: String)
    ensures
        r@ == match label_file {
            Some(l) => trim(l@),
            None => "Temp "@ + idx@,
        },
{
    match label_file {
        Some(l) => {
            let c = chars_of(l);
            let t = trim_chars(c.as_slice());
            string_of(t.as_slice())
        },
        None => {
            let mut s = "Temp ".to_string();
            s.append(idx);
            s
        },
    }
}

/// The duty in percent of a raw PWM reading (0-255 scale): `v * 100 / 255` rounded
/// to the nearest integer (it is never halfway), saturated to the `i32` range.
pub open spec fn pwm_to_pct_spec(v: i64) -> int {
    let q = (200 * v + 255) / 510;
    if q > i32::MAX {
        i32::MAX as int
    } else if q < i32::MIN {
        i32::MIN as int
    } else {
        q
    }
}

pub fn pwm_to_pct(v: i64) -> (p: i32)
    ensures
        p == pwm_to_pct_spec(v),
        0 <= v <= 255 ==> 0 <= p <= 100,
{
    let w: i128 = v as i128;
    let n: i128 = 200 * w + 255;
    // floor division, also for negative numerators
    let q: i128 = if n >= 0 {
        n / 510
    } else {
        -((-n + 509) / 510)
    };
    assert(q == (200 * v + 255) / 510) by (nonlinear_arith)
        requires
            n == 200 * v + 255,
            n >= 0 ==> q == n / 510,
            n < 0 ==> q == -((-n + 509) / 510),
    ;
    if q > 0x7FFF_FFFF {
        0x7FFF_FFFF
    } else if q < -0x8000_0000 {
        -0x8000_0000
    } else {
        q as i32
    }
}

} // verus!
