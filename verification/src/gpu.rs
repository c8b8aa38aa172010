//! GPUs: AMD cards found under `/sys/class/drm`, NVIDIA cards through the CSV that
//! `nvidia-smi` prints.
use vstd::prelude::*;
use crate::text::{
    append_chars, chars_eq_str, chars_of, contains_str, lines, parse_i32, parse_i32_chars,
    signed_decimal, signed_decimal_chars, sort_names, sort_names_spec, split_char, split_chars,
    split_lines, starts_with, starts_with_str, string_of, string_seq, trim, trim_chars, views,
};

verus! {

/// A DRM entry that is a card (`card0`), not one of its connectors (`card0-HDMI-A-1`).
pub open spec fn drm_card_spec(name: Seq<char>) -> bool {
    starts_with(name, "card"@) && !crate::text::contains(name, "-"@)
}

pub fn is_drm_card(name: &str) -> (r: bool)
    ensures
        r == drm_card_spec(name@),
{
    let c = chars_of(name);
    starts_with_str(c.as_slice(), "card") && !contains_str(c.as_slice(), "-")
}

/// The names that are cards, in order.
pub open spec fn card_names(names: Seq<Seq<char>>) -> Seq<Seq<char>>
    decreases names.len(),
{
    if names.len() == 0 {
        seq![]
    } else {
        let p = card_names(names.drop_last());
        if drm_card_spec(names.last()) {
            p.push(names.last())
        } else {
            p
        }
    }
}

/// The cards among the entries of `/sys/class/drm`, in name order; a GPU's index is
/// its position here.
pub fn drm_cards(entries: Vec<String>) -> (r: Vec<String>)
    ensures
        string_seq(r@) == sort_names_spec(card_names(string_seq(entries@))),
{
    let mut cards: Vec<String> = Vec::new();
    let ghost es = string_seq(entries@);
    let mut entries = entries;
    let mut rest: Vec<String> = Vec::new();
    // take the entries out in reverse, then keep the cards in their order
    while entries.len() > 0
        invariant
            string_seq(entries@) + string_seq(rest@).reverse() == es,
        decreases entries.len(),
    {
        let ghost bp = string_seq(entries@);
        let ghost br = string_seq(rest@);
        let x = entries.pop().unwrap();
        rest.push(x);
        assert(string_seq(entries@) =~= bp.drop_last());
        assert(string_seq(rest@) =~= br.push(x@));
        assert(string_seq(entries@) + string_seq(rest@).reverse() =~= bp + br.reverse());
    }
    assert(string_seq(rest@).reverse() =~= es);
    let ghost total = rest@.len();
    assert(es.take(0) =~= Seq::<Seq<char>>::empty());
    while rest.len() > 0
        invariant
            total == es.len(),
            rest@.len() <= total,
            string_seq(rest@).reverse() == es.skip(total - rest@.len()),
            string_seq(cards@) == card_names(es.take(total - rest@.len())),
        decreases rest.len(),
    {
        let ghost done = total - rest@.len();
        let ghost br = string_seq(rest@);
        let x = rest.pop().unwrap();
        assert(x@ == es[done]) by {
            assert(br.reverse()[0] == br[br.len() - 1]);
        }
        assert(string_seq(rest@) =~= br.drop_last());
        assert(string_seq(rest@).reverse() =~= es.skip(done + 1)) by {
            assert forall|k: int| 0 <= k < string_seq(rest@).len() implies string_seq(rest@).reverse()[k] == es.skip(done + 1)[k] by {
                assert(br.reverse()[k + 1] == es.skip(done)[k + 1]);
            }
        }
        assert(es.take(done + 1).drop_last() =~= es.take(done));
        assert(es.take(done + 1).last() == es[done]);
        let ghost bc = string_seq(cards@);
        if is_drm_card(x.as_str()) {
            cards.push(x);
            assert(string_seq(cards@) =~= bc.push(es[done]));
        }
    }
    assert(es.take(total as int) =~= es);
    sort_names(cards)
}

/// The PCI vendor file of an AMD/ATI device (`0x1002`).
pub fn is_amd_vendor(vendor_file: &str) -> (r: bool)
    ensures
        r == (trim(vendor_file@) == "0x1002"@),
{
    let c = chars_of(vendor_file);
    let t = trim_chars(c.as_slice());
    chars_eq_str(t.as_slice(), "0x1002")
}

/// One line of `nvidia-smi --query-gpu=index,fan.speed,temperature.gpu,name,
/// utilization.gpu,memory.used,memory.total --format=csv,noheader,nounits`, with the
/// integer fields parsed and the decimal ones kept as written.
pub struct NvidiaRow {
    pub index: i32,
    pub fan_pct: Option<i32>,
    pub temp_text: String,
    pub name: String,
    pub usage_text: String,
    pub vram_used_text: String,
    pub vram_total_text: String,
}

pub struct NvidiaRowView {
    pub index: i32,
    pub fan_pct: Option<i32>,
    pub temp_text: Seq<char>,
    pub name: Seq<char>,
    pub usage_text: Seq<char>,
    pub vram_used_text: Seq<char>,
    pub vram_total_text: Seq<char>,
}

impl View for NvidiaRow {
    type V = NvidiaRowView;

    open spec fn view(&self) -> NvidiaRowView {
        NvidiaRowView {
            index: self.index,
            fan_pct: self.fan_pct,
            temp_text: self.temp_text@,
            name: self.name@,
            usage_text: self.usage_text@,
            vram_used_text: self.vram_used_text@,
            vram_total_text: self.vram_total_text@,
        }
    }
}

pub open spec fn row_views(v: Seq<NvidiaRow>) -> Seq<NvidiaRowView> {
    Seq::new(v.len(), |i: int| v[i]@)
}

/// The row of one CSV line: its comma-separated fields trimmed; none with fewer than
/// seven fields or an index that is not a number.
pub open spec fn nvidia_row(l: Seq<char>) -> Option<NvidiaRowView> {
    let raw = split_char(l, ',');
    let p = Seq::new(raw.len(), |i: int| trim(raw[i]));
    if p.len() < 7 {
        None
    } else {
        match parse_i32(p[0]) {
            Some(index) => Some(
                NvidiaRowView {
                    index,
                    fan_pct: parse_i32(p[1]),
                    temp_text: p[2],
                    name: p[3],
                    usage_text: p[4],
                    vram_used_text: p[5],
                    vram_total_text: p[6],
                },
            ),
            None => None,
        }
    }
}

pub open spec fn nvidia_rows(ls: Seq<Seq<char>>) -> Seq<NvidiaRowView>
    decreases ls.len(),
{
    if ls.len() == 0 {
        seq![]
    } else {
        let p = nvidia_rows(ls.drop_last());
        match nvidia_row(ls.last()) {
            Some(r) => p.push(r),
            None => p,
        }
    }
}

fn nvidia_row_exec(l: &[char]) -> (r: Option<NvidiaRow>)
    ensures
        r matches Some(x) ==> nvidia_row(l@) == Some(x@),
        r is None ==> nvidia_row(l@) is None,
{
    let raw = split_chars(l, ',');
    let ghost rv = split_char(l@, ',');
    let ghost pv = Seq::new(rv.len(), |i: int| trim(rv[i]));
    let mut p: Vec<Vec<char>> = Vec::new();
    let mut i: usize = 0;
    while i < raw.len()
        invariant
            i <= raw.len(),
            views(raw@) == rv,
            pv == Seq::new(rv.len(), |i: int| trim(rv[i])),
            views(p@) == pv.take(i as int),
        decreases raw.len() - i,
    {
        assert(views(raw@)[i as int] == raw@[i as int]@);
        let t = trim_chars(raw[i].as_slice());
        let ghost before = views(p@);
        p.push(t);
        assert(views(p@) =~= before.push(pv[i as int]));
        i = i + 1;
        assert(pv.take(i as int) =~= pv.take(i - 1).push(pv[i - 1]));
    }
    assert(pv.take(raw.len() as int) =~= pv);
    if p.len() < 7 {
        return None;
    }
    assert(forall|k: int| 0 <= k < 7 ==> views(p@)[k] == #[trigger] p@[k]@);
    let index = match parse_i32_chars(p[0].as_slice()) {
        Some(v) => v,
        None => return None,
    };
    Some(
        NvidiaRow {
            index,
            fan_pct: parse_i32_chars(p[1].as_slice()),
            temp_text: string_of(p[2].as_slice()),
            name: string_of(p[3].as_slice()),
            usage_text: string_of(p[4].as_slice()),
            vram_used_text: string_of(p[5].as_slice()),
            vram_total_text: string_of(p[6].as_slice()),
        },
    )
}

/// The GPUs listed in the CSV output of `nvidia-smi`, in order.
pub fn parse_nvidia_csv(stdout: &str) -> (r: Vec<NvidiaRow>)
    ensures
        row_views(r@) == nvidia_rows(lines(stdout@)),
{
    let cs = chars_of(stdout);
    let ls = split_lines(cs.as_slice());
    let mut out: Vec<NvidiaRow> = Vec::new();
    let mut i: usize = 0;
    assert(views(ls@).take(0) =~= Seq::<Seq<char>>::empty());
    while i < ls.len()
        invariant
            i <= ls.len(),
            row_views(out@) == nvidia_rows(views(ls@).take(i as int)),
        decreases ls.len() - i,
    {
        assert(views(ls@).take(i + 1).drop_last() =~= views(ls@).take(i as int));
        assert(views(ls@).take(i + 1).last() == ls@[i as int]@);
        let ghost before = row_views(out@);
        match nvidia_row_exec(ls[i].as_slice()) {
            Some(r) => {
                out.push(r);
                assert(row_views(out@) =~= before.push(nvidia_row(ls@[i as int]@)->0));
            },
            None => {},
        }
        i = i + 1;
    }
    assert(views(ls@).take(ls.len() as int) =~= views(ls@));
    out
}

/// The fan speed that a request for `speed_pct` sets: clamped to 0..100.
pub open spec fn fan_speed_setting(speed_pct: i32) -> int {
    if speed_pct < 0 {
        0
    } else if speed_pct > 100 {
        100
    } else {
        speed_pct as int
    }
}

/// The arguments of the commands that set an NVIDIA fan's speed, in the order they
/// are tried: `nvidia-smi` to take manual control, `nvidia-smi` to set the speed,
/// then `nvidia-settings` as the fallback.
pub struct NvidiaFanCommands {
    pub manual_args: Vec<String>,
    pub speed_args: Vec<String>,
    pub settings_args: Vec<String>,
}

/// `head`, the numeral of `n`, then `tail`.
fn text_of(head: &str, n: i32, tail: &str) -> (r: String)
    ensures
        r@ == head@ + signed_decimal(n as int) + tail@,
{
    let mut v = chars_of(head);
    let d = signed_decimal_chars(n);
    append_chars(&mut v, d.as_slice());
    let t = chars_of(tail);
    append_chars(&mut v, t.as_slice());
    string_of(v.as_slice())
}

/// The commands that set fan `gpu_index` to `speed_pct` percent (clamped to 0..100).
pub fn nvidia_fan_speed_commands(gpu_index: i32, speed_pct: i32) -> (c: NvidiaFanCommands)
    ensures
        string_seq(c.manual_args@) == seq![
            "-i"@,
            signed_decimal(gpu_index as int),
            "--fan-control=1"@,
        ],
        string_seq(c.speed_args@) == seq![
            "-i"@,
            signed_decimal(gpu_index as int),
            "--assign-gpu-fan-speed=0="@ + signed_decimal(fan_speed_setting(speed_pct)),
        ],
        string_seq(c.settings_args@) == seq![
            "-a"@,
            "[gpu:"@ + signed_decimal(gpu_index as int) + "]/GPUFanControlState=1"@,
            "-a"@,
            "[fan:"@ + signed_decimal(gpu_index as int) + "]/GPUTargetFanSpeed="@ + signed_decimal(
                fan_speed_setting(speed_pct),
            ),
        ],
{
    let speed: i32 = if speed_pct < 0 {
        0
    } else if speed_pct > 100 {
        100
    } else {
        speed_pct
    };
    let idx = string_of(signed_decimal_chars(gpu_index).as_slice());
    let mut manual_args: Vec<String> = Vec::new();
    manual_args.push("-i".to_string());
    manual_args.push(idx.clone());
    manual_args.push("--fan-control=1".to_string());
    let mut speed_args: Vec<String> = Vec::new();
    speed_args.push("-i".to_string());
    speed_args.push(string_of(signed_decimal_chars(gpu_index).as_slice()));
    speed_args.push(text_of("--assign-gpu-fan-speed=0=", speed, ""));
    let mut settings_args: Vec<String> = Vec::new();
    settings_args.push("-a".to_string());
    settings_args.push(text_of("[gpu:", gpu_index, "]/GPUFanControlState=1"));
    settings_args.push("-a".to_string());
    let mut fan = chars_of("[fan:");
    append_chars(&mut fan, signed_decimal_chars(gpu_index).as_slice());
    append_chars(&mut fan, chars_of("]/GPUTargetFanSpeed=").as_slice());
    append_chars(&mut fan, signed_decimal_chars(speed).as_slice());
    settings_args.push(string_of(fan.as_slice()));
    proof {
        reveal_strlit("");
    }
    let c = NvidiaFanCommands { manual_args, speed_args, settings_args };
    assert(string_seq(c.manual_args@) =~= seq!["-i"@, signed_decimal(gpu_index as int), "--fan-control=1"@]);
    assert(string_seq(c.speed_args@) =~= seq![
        "-i"@,
        signed_decimal(gpu_index as int),
        "--assign-gpu-fan-speed=0="@ + signed_decimal(fan_speed_setting(speed_pct)),
    ]);
    assert(string_seq(c.settings_args@) =~= seq![
        "-a"@,
        "[gpu:"@ + signed_decimal(gpu_index as int) + "]/GPUFanControlState=1"@,
        "-a"@,
        "[fan:"@ + signed_decimal(gpu_index as int) + "]/GPUTargetFanSpeed="@ + signed_decimal(
            fan_speed_setting(speed_pct),
        ),
    ]);
    c
}

/// The arguments of the commands that give fan `gpu_index` back to the driver:
/// `nvidia-smi` first, `nvidia-settings` as the fallback.
pub fn nvidia_fan_auto_commands(gpu_index: i32) -> (c: (Vec<String>, Vec<String>))
    ensures
        string_seq(c.0@) == seq!["-i"@, signed_decimal(gpu_index as int), "--fan-control=0"@],
        string_seq(c.1@) == seq![
            "-a"@,
            "[gpu:"@ + signed_decimal(gpu_index as int) + "]/GPUFanControlState=0"@,
        ],
{
    let mut smi: Vec<String> = Vec::new();
    smi.push("-i".to_string());
    smi.push(string_of(signed_decimal_chars(gpu_index).as_slice()));
    smi.push("--fan-control=0".to_string());
    let mut settings: Vec<String> = Vec::new();
    settings.push("-a".to_string());
    settings.push(text_of("[gpu:", gpu_index, "]/GPUFanControlState=0"));
    assert(string_seq(smi@) =~= seq!["-i"@, signed_decimal(gpu_index as int), "--fan-control=0"@]);
    assert(string_seq(settings@) =~= seq![
        "-a"@,
        "[gpu:"@ + signed_decimal(gpu_index as int) + "]/GPUFanControlState=0"@,
    ]);
    (smi, settings)
}

} // verus!
