//! Power profiles (silent, balanced, performance) on top of the cpufreq governors.
use vstd::prelude::*;
use crate::text::{
    append_chars, chars_eq_str, chars_of, decimal, decimal_chars, parse_i32, parse_i32_chars,
    split_tokens, string_of, string_seq, tokens, trim, trim_chars, views,
};

verus! {

/// The governors listed in `scaling_available_governors` (none when the file could
/// not be read).
pub open spec fn governors_spec(content: Option<Seq<char>>) -> Seq<Seq<char>> {
    match content {
        Some(c) => tokens(trim(c)),
        None => seq![],
    }
}

pub fn governors_from(content: Option<&str>) -> (r: Vec<String>)
    ensures
        string_seq(r@) == governors_spec(match content {
            Some(c) => Some(c@),
            None => None,
        }),
{
    let mut out: Vec<String> = Vec::new();
    let c = match content {
        Some(c) => c,
        None => {
            assert(string_seq(out@) =~= Seq::<Seq<char>>::empty());
            return out;
        },
    };
    let cs = chars_of(c);
    let t = trim_chars(cs.as_slice());
    let toks = split_tokens(t.as_slice());
    let mut i: usize = 0;
    while i < toks.len()
        invariant
            i <= toks.len(),
            string_seq(out@) == views(toks@).take(i as int),
        decreases toks.len() - i,
    {
        let s = string_of(toks[i].as_slice());
        let ghost before = string_seq(out@);
        out.push(s);
        assert(string_seq(out@) =~= before.push(toks@[i as int]@));
        i = i + 1;
        assert(views(toks@).take(i as int) =~= views(toks@).take(i - 1).push(toks@[i - 1]@));
    }
    assert(views(toks@).take(toks.len() as int) =~= views(toks@));
    out
}

/// `g` is one of `names`.
pub open spec fn listed(names: Seq<Seq<char>>, g: Seq<char>) -> bool {
    exists|i: int| 0 <= i < names.len() && names[i] == g
}

/// The profiles offered: all three with intel_pstate; otherwise silent when
/// `powersave` is available, balanced when `schedutil`, `ondemand` or `conservative`
/// is, performance when `performance` is; balanced alone when none applies.
pub open spec fn profiles_spec(govs: Seq<Seq<char>>, pstate: bool) -> Seq<Seq<char>> {
    if pstate {
        seq!["silent"@, "balanced"@, "performance"@]
    } else {
        let a = if listed(govs, "powersave"@) {
            seq!["silent"@]
        } else {
            seq![]
        };
        let b = if listed(govs, "schedutil"@) || listed(govs, "ondemand"@)
            || listed(govs, "conservative"@) {
            a.push("balanced"@)
        } else {
            a
        };
        let c = if listed(govs, "performance"@) {
            b.push("performance"@)
        } else {
            b
        };
        if c.len() == 0 {
            seq!["balanced"@]
        } else {
            c
        }
    }
}

fn listed_exec(govs: &[String], g: &str) -> (r: bool)
    ensures
        r == listed(string_seq(govs@), g@),
{
    let mut i: usize = 0;
    while i < govs.len()
        invariant
            i <= govs.len(),
            forall|j: int| 0 <= j < i ==> string_seq(govs@)[j] != g@,
        decreases govs.len() - i,
    {
        let c = chars_of(govs[i].as_str());
        if chars_eq_str(c.as_slice(), g) {
            assert(string_seq(govs@)[i as int] == g@);
            return true;
        }
        i = i + 1;
    }
    false
}

/// The profiles that the machine offers, with the governors and the intel_pstate flag
/// they were worked out from.
pub fn get_available_profiles(available_governors: Vec<String>, pstate: bool) -> (r: (
    Vec<String>,
    Vec<String>,
    bool,
))
    ensures
        string_seq(r.0@) == profiles_spec(string_seq(available_governors@), pstate),
        string_seq(r.1@) == string_seq(available_governors@),
        r.2 == pstate,
{
    let govs = available_governors.as_slice();
    let mut profiles: Vec<String> = Vec::new();
    if pstate {
        profiles.push("silent".to_string());
        profiles.push("balanced".to_string());
        profiles.push("performance".to_string());
    } else {
        if listed_exec(govs, "powersave") {
            profiles.push("silent".to_string());
        }
        if listed_exec(govs, "schedutil") || listed_exec(govs, "ondemand")
            || listed_exec(govs, "conservative") {
            profiles.push("balanced".to_string());
        }
        if listed_exec(govs, "performance") {
            profiles.push("performance".to_string());
        }
    }
    if profiles.len() == 0 {
        profiles.push("balanced".to_string());
    }
    assert(string_seq(profiles@) =~= profiles_spec(string_seq(available_governors@), pstate));
    (profiles, available_governors, pstate)
}

/// The `max_perf_pct` of intel_pstate, 100 when unreadable.
pub open spec fn max_perf_spec(content: Option<Seq<char>>) -> int {
    match content {
        Some(c) => match parse_i32(trim(c)) {
            Some(v) => v as int,
            None => 100,
        },
        None => 100,
    }
}

/// The profile in effect for the current governor (and, with intel_pstate, the
/// performance cap).
pub open spec fn current_profile_spec(governor: Seq<char>, pstate: bool, max_perf: int) -> Seq<char> {
    if pstate {
        if governor == "powersave"@ && max_perf <= 50 {
            "silent"@
        } else if governor == "powersave"@ {
            "balanced"@
        } else if governor == "performance"@ {
            "performance"@
        } else {
            "balanced"@
        }
    } else {
        if governor == "powersave"@ || governor == "conservative"@ {
            "silent"@
        } else if governor == "schedutil"@ || governor == "ondemand"@ {
            "balanced"@
        } else if governor == "performance"@ {
            "performance"@
        } else {
            "balanced"@
        }
    }
}

/// The current governor: the trimmed `scaling_governor` text, empty when unreadable.
pub open spec fn governor_spec(content: Option<Seq<char>>) -> Seq<char> {
    match content {
        Some(c) => trim(c),
        None => Seq::empty(),
    }
}

pub open spec fn opt_view(o: Option<&str>) -> Option<Seq<char>> {
    match o {
        Some(s) => Some(s@),
        None => None,
    }
}

/// The profile in effect, from the texts of `scaling_governor` and (with
/// intel_pstate) `max_perf_pct`; `None` stands for a file that could not be read.
pub fn get_current_profile(
    available_governors: &[String],
    pstate: bool,
    governor_file: Option<&str>,
    max_perf_file: Option<&str>,
) -> (r: String)
    ensures
        r@ == current_profile_spec(
            governor_spec(opt_view(governor_file)),
            pstate,
            max_perf_spec(opt_view(max_perf_file)),
        ),
{
    let _ = available_governors;
    let governor: Vec<char> = match governor_file {
        Some(c) => {
            let cs = chars_of(c);
            trim_chars(cs.as_slice())
        },
        None => Vec::new(),
    };
    proof {
        reveal_strlit("");
        assert(governor@ == governor_spec(opt_view(governor_file)));
    }
    let g = governor.as_slice();
    if pstate {
        let max_perf: i32 = match max_perf_file {
            Some(c) => {
                let cs = chars_of(c);
                let t = trim_chars(cs.as_slice());
                match parse_i32_chars(t.as_slice()) {
                    Some(v) => v,
                    None => 100,
                }
            },
            None => 100,
        };
        if chars_eq_str(g, "powersave") && max_perf <= 50 {
            "silent".to_string()
        } else if chars_eq_str(g, "powersave") {
            "balanced".to_string()
        } else if chars_eq_str(g, "performance") {
            "performance".to_string()
        } else {
            "balanced".to_string()
        }
    } else {
        if chars_eq_str(g, "powersave") || chars_eq_str(g, "conservative") {
            "silent".to_string()
        } else if chars_eq_str(g, "schedutil") || chars_eq_str(g, "ondemand") {
            "balanced".to_string()
        } else if chars_eq_str(g, "performance") {
            "performance".to_string()
        } else {
            "balanced".to_string()
        }
    }
}

/// Profiles offered and in effect, with the governors available.
pub struct ProfilesInfo {
    pub available_profiles: Vec<String>,
    pub current_profile: String,
    pub available_governors: Vec<String>,
    pub has_pstate: bool,
}

/// What the energy page shows, from the texts of the cpufreq files (`None` for a
/// file that could not be read) and whether intel_pstate is present.
pub fn get_profiles_info(
    governors_file: Option<&str>,
    pstate: bool,
    governor_file: Option<&str>,
    max_perf_file: Option<&str>,
) -> (r: ProfilesInfo)
    ensures
        string_seq(r.available_governors@) == governors_spec(opt_view(governors_file)),
        string_seq(r.available_profiles@) == profiles_spec(
            governors_spec(opt_view(governors_file)),
            pstate,
        ),
        r.current_profile@ == current_profile_spec(
            governor_spec(opt_view(governor_file)),
            pstate,
            max_perf_spec(opt_view(max_perf_file)),
        ),
        r.has_pstate == pstate,
{
    let govs = governors_from(governors_file);
    let (available_profiles, available_governors, pstate) = get_available_profiles(govs, pstate);
    let current_profile = get_current_profile(
        available_governors.as_slice(),
        pstate,
        governor_file,
        max_perf_file,
    );
    ProfilesInfo { available_profiles, current_profile, available_governors, has_pstate: pstate }
}

/// One profile as the energy page shows it.
pub struct ProfileCard {
    pub id: String,
    pub title: String,
    pub description: String,
    pub active: bool,
}

pub struct ProfileCardView {
    pub id: Seq<char>,
    pub title: Seq<char>,
    pub description: Seq<char>,
    pub active: bool,
}

impl View for ProfileCard {
    type V = ProfileCardView;

    open spec fn view(&self) -> ProfileCardView {
        ProfileCardView { id: self.id@, title: self.title@, description: self.description@, active: self.active }
    }
}

pub open spec fn card_views(v: Seq<ProfileCard>) -> Seq<ProfileCardView> {
    Seq::new(v.len(), |i: int| v[i]@)
}

/// The card of one profile when it is offered.
pub open spec fn card_if_offered(
    offered: Seq<Seq<char>>,
    current: Seq<char>,
    id: Seq<char>,
    title: Seq<char>,
    description: Seq<char>,
) -> Seq<ProfileCardView> {
    if listed(offered, id) {
        seq![ProfileCardView { id, title, description, active: current == id }]
    } else {
        seq![]
    }
}

/// The cards of the energy page: silent, balanced and performance in that order,
/// each only when offered, the one in effect marked active.
pub open spec fn profile_cards_spec(offered: Seq<Seq<char>>, current: Seq<char>) -> Seq<ProfileCardView> {
    card_if_offered(offered, current, "silent"@, "Economia"@, "Baixo consumo \u{b7} Silencioso"@)
        + card_if_offered(offered, current, "balanced"@, "Equilibrado"@, "Desempenho adaptativo"@)
        + card_if_offered(offered, current, "performance"@, "Desempenho"@, "M\u{e1}ximo desempenho"@)
}

fn push_card_if_offered(
    cards: &mut Vec<ProfileCard>,
    info: &ProfilesInfo,
    id: &str,
    title: &str,
    description: &str,
)
    ensures
        card_views(final(cards)@) == card_views(old(cards)@) + card_if_offered(
            string_seq(info.available_profiles@),
            info.current_profile@,
            id@,
            title@,
            description@,
        ),
{
    let ghost before = card_views(cards@);
    if listed_exec(info.available_profiles.as_slice(), id) {
        let c = chars_of(info.current_profile.as_str());
        let active = chars_eq_str(c.as_slice(), id);
        cards.push(
            ProfileCard {
                id: id.to_string(),
                title: title.to_string(),
                description: description.to_string(),
                active,
            },
        );
        assert(card_views(cards@) =~= before + seq![
            ProfileCardView { id: id@, title: title@, description: description@, active },
        ]);
    } else {
        assert(card_views(cards@) =~= before + Seq::<ProfileCardView>::empty());
    }
}

/// The profile cards that the energy page shows for `info`.
pub fn profile_cards(info: &ProfilesInfo) -> (r: Vec<ProfileCard>)
    ensures
        card_views(r@) == profile_cards_spec(string_seq(info.available_profiles@), info.current_profile@),
{
    let mut cards: Vec<ProfileCard> = Vec::new();
    assert(card_views(cards@) =~= Seq::<ProfileCardView>::empty());
    push_card_if_offered(&mut cards, info, "silent", "Economia", "Baixo consumo \u{b7} Silencioso");
    push_card_if_offered(&mut cards, info, "balanced", "Equilibrado", "Desempenho adaptativo");
    push_card_if_offered(&mut cards, info, "performance", "Desempenho", "M\u{e1}ximo desempenho");
    assert(card_views(cards@) =~= profile_cards_spec(
        string_seq(info.available_profiles@),
        info.current_profile@,
    ));
    cards
}

/// The governor a profile asks for: `powersave` for silent, the first available of
/// `schedutil`, `ondemand`, `powersave` for balanced (`powersave` when none is),
/// `performance` for performance, `schedutil` for any other name.
pub open spec fn profile_governor_spec(profile: Seq<char>, govs: Seq<Seq<char>>) -> Seq<char> {
    if profile == "silent"@ {
        "powersave"@
    } else if profile == "balanced"@ {
        if listed(govs, "schedutil"@) {
            "schedutil"@
        } else if listed(govs, "ondemand"@) {
            "ondemand"@
        } else {
            "powersave"@
        }
    } else if profile == "performance"@ {
        "performance"@
    } else {
        "schedutil"@
    }
}

pub fn profile_governor(profile_name: &str, available_governors: &[String]) -> (g: String)
    ensures
        g@ == profile_governor_spec(profile_name@, string_seq(available_governors@)),
{
    let p = chars_of(profile_name);
    let p = p.as_slice();
    if chars_eq_str(p, "silent") {
        "powersave".to_string()
    } else if chars_eq_str(p, "balanced") {
        if listed_exec(available_governors, "schedutil") {
            "schedutil".to_string()
        } else if listed_exec(available_governors, "ondemand") {
            "ondemand".to_string()
        } else {
            "powersave".to_string()
        }
    } else if chars_eq_str(p, "performance") {
        "performance".to_string()
    } else {
        "schedutil".to_string()
    }
}

/// The `scaling_governor` file of CPU `i`.
pub open spec fn governor_path_spec(i: nat) -> Seq<char> {
    "/sys/devices/system/cpu/cpu"@ + decimal(i) + "/cpufreq/scaling_governor"@
}

pub fn governor_path(i: usize) -> (p: String)
    ensures
        p@ == governor_path_spec(i as nat),
{
    let mut v = chars_of("/sys/devices/system/cpu/cpu");
    let d = decimal_chars(i as u64);
    append_chars(&mut v, d.as_slice());
    let tail = chars_of("/cpufreq/scaling_governor");
    append_chars(&mut v, tail.as_slice());
    string_of(v.as_slice())
}

/// Some CPU took the governor.
pub open spec fn any_written(outcomes: Seq<Option<Result<(), String>>>) -> bool {
    exists|i: int| 0 <= i < outcomes.len() && outcomes[i] == Some(Ok::<(), String>(()))
}

/// The message of the last failed write, empty when none failed.
pub open spec fn last_error(outcomes: Seq<Option<Result<(), String>>>) -> Seq<char>
    decreases outcomes.len(),
{
    if outcomes.len() == 0 {
        Seq::empty()
    } else {
        match outcomes.last() {
            Some(Err(m)) => m@,
            _ => last_error(outcomes.drop_last()),
        }
    }
}

/// The result of applying a profile, from what happened at each CPU: `None` where
/// the CPU has no cpufreq governor file, the write's result otherwise (its error
/// already worded). Success when any write succeeded; otherwise the last error, or
/// a note that no CPU has cpufreq.
pub open spec fn apply_result_spec(outcomes: Seq<Option<Result<(), String>>>) -> Result<(), Seq<char>> {
    if any_written(outcomes) {
        Ok(())
    } else if last_error(outcomes).len() == 0 {
        Err("nenhuma CPU com cpufreq encontrada"@)
    } else {
        Err(last_error(outcomes))
    }
}

pub fn apply_result(outcomes: &[Option<Result<(), String>>]) -> (r: Result<(), String>)
    ensures
        match (r, apply_result_spec(outcomes@)) {
            (Ok(()), Ok(())) => true,
            (Err(m), Err(e)) => m@ == e,
            _ => false,
        },
{
    let mut any_ok = false;
    let mut last: Option<usize> = None;
    let mut i: usize = 0;
    assert(outcomes@.take(0) =~= Seq::<Option<Result<(), String>>>::empty());
    while i < outcomes.len()
        invariant
            i <= outcomes.len(),
            any_ok == exists|k: int| 0 <= k < i && outcomes@[k] == Some(Ok::<(), String>(())),
            match last {
                Some(k) => k < i && (outcomes@[k as int] matches Some(Err(m)) && last_error(outcomes@.take(i as int)) == m@),
                None => last_error(outcomes@.take(i as int)).len() == 0,
            },
        decreases outcomes.len() - i,
    {
        assert(outcomes@.take(i + 1).drop_last() =~= outcomes@.take(i as int));
        assert(outcomes@.take(i + 1).last() == outcomes@[i as int]);
        let o = &outcomes[i];
        assert(*o == outcomes@[i as int]);
        match o {
            Some(Ok(u)) => {
                assert(*u == ());
                assert(outcomes@[i as int] == Some(Ok::<(), String>(())));
                any_ok = true;
            },
            Some(Err(_)) => {
                last = Some(i);
            },
            None => {},
        }
        assert(any_ok == exists|k: int| 0 <= k < i + 1 && outcomes@[k] == Some(Ok::<(), String>(()))) by {
            if outcomes@[i as int] == Some(Ok::<(), String>(())) {
                assert(any_ok);
            }
        }
        i = i + 1;
    }
    assert(outcomes@.take(outcomes.len() as int) =~= outcomes@);
    if any_ok {
        return Ok(());
    }
    match last {
        Some(k) => match &outcomes[k] {
            Some(Err(m)) => {
                if m.as_str().is_empty() {
                    Err("nenhuma CPU com cpufreq encontrada".to_string())
                } else {
                    Err(string_of(chars_of(m.as_str()).as_slice()))
                }
            },
            _ => Err("nenhuma CPU com cpufreq encontrada".to_string()),
        },
        None => Err("nenhuma CPU com cpufreq encontrada".to_string()),
    }
}

/// Without intel_pstate, a profile that is offered and then applied is the profile
/// read back from the governor it set, except for balanced on a machine whose only
/// balanced governor is `conservative` (it falls back to `powersave`, read back as
/// silent).
pub proof fn law_applied_profile_reads_back(profile: Seq<char>, govs: Seq<Seq<char>>, max_perf: int)
    requires
        profiles_spec(govs, false).contains(profile),
        profile == "balanced"@ ==> listed(govs, "schedutil"@) || listed(govs, "ondemand"@),
    ensures
        current_profile_spec(profile_governor_spec(profile, govs), false, max_perf) == profile,
{
    reveal_strlit("silent");
    reveal_strlit("balanced");
    reveal_strlit("performance");
    reveal_strlit("powersave");
    reveal_strlit("schedutil");
    reveal_strlit("ondemand");
    reveal_strlit("conservative");
    let ps = profiles_spec(govs, false);
    let k = choose|k: int| 0 <= k < ps.len() && ps[k] == profile;
    assert(profile == "silent"@ || profile == "balanced"@ || profile == "performance"@);
    assert("silent"@[0] != "balanced"@[0] && "silent"@[0] != "performance"@[0]);
    assert("balanced"@[0] != "performance"@[0]);
    assert("schedutil"@[0] != "powersave"@[0] && "schedutil"@[0] != "conservative"@[0]);
    assert("ondemand"@[0] != "powersave"@[0] && "ondemand"@[0] != "conservative"@[0]);
    assert("ondemand"@[0] != "schedutil"@[0]);
    assert("performance"@[0] != "powersave"@[1] || "performance"@ != "powersave"@);
    assert("performance"@[2] != "powersave"@[2]);
    assert("performance"@.len() != "conservative"@.len());
    assert("performance"@.len() != "schedutil"@.len() && "performance"@.len() != "ondemand"@.len());
}

/// Some profile is always offered, and the profile in effect is always one of the
/// three profiles.
pub proof fn law_profiles_well_formed(govs: Seq<Seq<char>>, pstate: bool, governor: Seq<char>, max_perf: int)
    ensures
        profiles_spec(govs, pstate).len() >= 1,
        current_profile_spec(governor, pstate, max_perf) == "silent"@
            || current_profile_spec(governor, pstate, max_perf) == "balanced"@
            || current_profile_spec(governor, pstate, max_perf) == "performance"@,
{
}

} // verus!
