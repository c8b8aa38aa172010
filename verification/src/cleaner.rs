//! The cleanup tasks: which ones are offered, how their results are reported, and the
//! human-readable byte sizes they show.
use vstd::prelude::*;
use vstd::arithmetic::power2::{lemma2_to64, lemma2_to64_rest, lemma_pow2_pos, lemma_pow2_strictly_increases, lemma_pow2_unfold, pow2};
use crate::text::{
    append_chars, chars_of, contains, contains_str, decimal, decimal_chars, digit_char, lines,
    parse_u64, parse_u64_chars, split_lines, string_of, string_seq, token_nth, token_nth_chars,
    trim, trim_chars, views,
};

verus! {

// ---------------------------------------------------------------------------
// Sizes as text
// ---------------------------------------------------------------------------

/// Number of binary digits of `b`.
pub open spec fn bit_len(b: nat) -> nat
    decreases b,
{
    if b == 0 {
        0
    } else {
        1 + bit_len(b / 2)
    }
}

/// `n / d` rounded to the nearest integer, ties to the even one.
pub open spec fn div_round_even(n: nat, d: nat) -> nat
    recommends
        d > 0,
{
    let q = n / d;
    let r = n % d;
    if 2 * r > d || (2 * r == d && q % 2 == 1) {
        q + 1
    } else {
        q
    }
}

/// The value of `b as f64`: `b` rounded to 53 significant bits, ties to even.
pub open spec fn as_f64_value(b: nat) -> nat {
    if bit_len(b) <= 53 {
        b
    } else {
        let unit = pow2((bit_len(b) - 53) as nat);
        div_round_even(b, unit) * unit
    }
}

/// `v` written with `p` decimals (`p <= 2`): `v` counts units of `10^-p`.
pub open spec fn fixed_point(v: nat, p: nat) -> Seq<char> {
    if p == 0 {
        decimal(v)
    } else if p == 1 {
        decimal(v / 10) + seq!['.', digit_char(v % 10)]
    } else {
        decimal(v / 100) + seq!['.', digit_char((v / 10) % 10), digit_char(v % 10)]
    }
}

/// `x / d` shown with `p` decimals, the way `format!("{:.p$}", x as f64 / d as f64)`
/// shows it for a power of two `d` (the quotient is exact, the decimal rounding takes
/// the nearest value, ties to even).
pub open spec fn shown(x: nat, d: nat, p: nat) -> Seq<char> {
    let scale: nat = if p == 0 {
        1
    } else if p == 1 {
        10
    } else {
        100
    };
    fixed_point(div_round_even(x * scale, d), p)
}

/// A byte count as the cleaner shows it: `"0 B"`, whole bytes under 1 KiB, then KB
/// with no decimal, MB with one and GB with two.
pub open spec fn size_text(b: nat) -> Seq<char> {
    if b == 0 {
        "0 B"@
    } else if b >= 1_073_741_824 {
        shown(as_f64_value(b), 1_073_741_824, 2) + " GB"@
    } else if b >= 1_048_576 {
        shown(b, 1_048_576, 1) + " MB"@
    } else if b >= 1024 {
        shown(b, 1024, 0) + " KB"@
    } else {
        decimal(b) + " B"@
    }
}

proof fn lemma_bit_len_bound(b: nat)
    ensures
        b < pow2(bit_len(b)),
        b > 0 ==> pow2((bit_len(b) - 1) as nat) <= b,
    decreases b,
{
    lemma2_to64();
    if b > 0 {
        let h = b / 2;
        lemma_bit_len_bound(h);
        assert(bit_len(b) == 1 + bit_len(h));
        lemma_pow2_unfold(bit_len(b));
        assert(pow2(bit_len(b)) == 2 * pow2(bit_len(h)));
        if h > 0 {
            lemma_pow2_unfold(bit_len(h));
        }
    }
}

fn bit_len_exec(b: u64) -> (r: u32)
    ensures
        r as nat == bit_len(b as nat),
        r <= 64,
{
    let mut n: u32 = 0;
    let mut x = b;
    proof {
        lemma_bit_len_u64(b);
    }
    while x > 0
        invariant
            n + bit_len(x as nat) == bit_len(b as nat),
            n <= 64,
            x > 0 ==> n + bit_len(x as nat) <= 64,
        decreases x,
    {
        proof {
            lemma_bit_len_bound(x as nat);
            lemma_bit_len_u64(x);
        }
        x = x / 2;
        n = n + 1;
    }
    proof {
        lemma_bit_len_u64(b);
    }
    n
}

proof fn lemma_bit_len_u64(b: u64)
    ensures
        bit_len(b as nat) <= 64,
{
    lemma_bit_len_bound(b as nat);
    if bit_len(b as nat) > 64 {
        lemma_pow2_mono(64, (bit_len(b as nat) - 1) as nat);
        lemma2_to64();
    }
}

proof fn lemma_pow2_mono(a: nat, b: nat)
    requires
        a <= b,
    ensures
        pow2(a) <= pow2(b),
{
    if a < b {
        lemma_pow2_strictly_increases(a, b);
    }
}

fn pow2_exec(n: u32) -> (r: u128)
    requires
        n <= 64,
    ensures
        r as nat == pow2(n as nat),
    decreases n,
{
    if n == 0 {
        proof {
            lemma2_to64();
        }
        1
    } else {
        let h = pow2_exec(n - 1);
        proof {
            lemma_pow2_mono((n - 1) as nat, 63);
            lemma2_to64_rest();
            lemma_pow2_unfold(n as nat);
            assert(pow2(n as nat) == 2 * pow2((n - 1) as nat));
        }
        2 * h
    }
}

fn div_round_even_exec(n: u128, d: u128) -> (r: u128)
    requires
        d > 0,
        d <= 0x1_0000_0000_0000_0000,
        n < 0x1_0000_0000_0000_0000_0000,
    ensures
        r as nat == div_round_even(n as nat, d as nat),
{
    let q = n / d;
    let rem = n % d;
    assert(q <= n) by (nonlinear_arith)
        requires
            q == n / d,
            d > 0,
    ;
    if 2 * rem > d || (2 * rem == d && q % 2 == 1) {
        q + 1
    } else {
        q
    }
}

/// `v` with `p` decimals.
fn fixed_point_exec(v: u128, p: u32) -> (r: Vec<char>)
    requires
        p <= 2,
        v < 0x1_0000_0000_0000_0000,
    ensures
        r@ == fixed_point(v as nat, p as nat),
{
    if p == 0 {
        decimal_chars(v as u64)
    } else if p == 1 {
        let mut r = decimal_chars((v / 10) as u64);
        r.push('.');
        let c = (48u8 + (v % 10) as u8) as char;
        assert(c == digit_char((v % 10) as nat));
        r.push(c);
        assert(r@ =~= decimal((v / 10) as nat) + seq!['.', digit_char((v % 10) as nat)]);
        r
    } else {
        let mut r = decimal_chars((v / 100) as u64);
        r.push('.');
        let c1 = (48u8 + ((v / 10) % 10) as u8) as char;
        let c2 = (48u8 + (v % 10) as u8) as char;
        assert(c1 == digit_char(((v / 10) % 10) as nat));
        assert(c2 == digit_char((v % 10) as nat));
        r.push(c1);
        r.push(c2);
        assert(r@ =~= decimal((v / 100) as nat) + seq![
            '.',
            digit_char(((v / 10) % 10) as nat),
            digit_char((v % 10) as nat),
        ]);
        r
    }
}

fn as_f64_value_exec(b: u64) -> (r: u128)
    ensures
        r as nat == as_f64_value(b as nat),
        r <= 0x1_0000_0000_0000_0800,
{
    let n = bit_len_exec(b);
    if n <= 53 {
        b as u128
    } else {
        let unit = pow2_exec(n - 53);
        proof {
            lemma_pow2_pos((n - 53) as nat);
            lemma_pow2_mono((n - 53) as nat, 11);
            lemma2_to64();
        }
        let q = div_round_even_exec(b as u128, unit);
        assert(q <= b as u128 / unit + 1);
        assert(unit <= 2048);
        assert((b as u128 / unit + 1) * unit <= b as u128 + unit) by (nonlinear_arith)
            requires
                unit > 0,
        ;
        assert(q * unit <= b as u128 + unit) by (nonlinear_arith)
            requires
                q <= b as u128 / unit + 1,
                (b as u128 / unit + 1) * unit <= b as u128 + unit,
                unit > 0,
        ;
        q * unit
    }
}

/// `x / d` with `p` decimals.
fn shown_exec(x: u128, d: u128, p: u32) -> (r: Vec<char>)
    requires
        p <= 2,
        d >= 1024,
        d <= 0x4000_0000,
        x <= 0x1_0000_0000_0000_0800,
    ensures
        r@ == shown(x as nat, d as nat, p as nat),
{
    let scale: u128 = if p == 0 {
        1
    } else if p == 1 {
        10
    } else {
        100
    };
    let xs = x * scale;
    let v = div_round_even_exec(xs, d);
    assert(v <= xs / d + 1);
    assert(xs / d <= xs / 1024) by (nonlinear_arith)
        requires
            d >= 1024,
    ;
    fixed_point_exec(v, p)
}

fn text_then(mut a: Vec<char>, lit: &str) -> (r: Vec<char>)
    ensures
        r@ == a@ + lit@,
{
    let b = chars_of(lit);
    append_chars(&mut a, b.as_slice());
    a
}

/// A byte count in human-readable form, as the cleaner reports freed space.
pub fn fmt_size(b: u64) -> (s: String)
    ensures
        s@ == size_text(b as nat),
{
    if b == 0 {
        return "0 B".to_string();
    }
    let v = if b >= 1_073_741_824 {
        let x = as_f64_value_exec(b);
        text_then(shown_exec(x, 1_073_741_824, 2), " GB")
    } else if b >= 1_048_576 {
        text_then(shown_exec(b as u128, 1_048_576, 1), " MB")
    } else if b >= 1024 {
        text_then(shown_exec(b as u128, 1024, 0), " KB")
    } else {
        text_then(decimal_chars(b), " B")
    };
    string_of(v.as_slice())
}

// ---------------------------------------------------------------------------
// Tasks
// ---------------------------------------------------------------------------

/// A cleanup task offered to the user.
#[derive(Clone, Debug)]
pub struct CleanTask {
    pub id: String,
    pub label: String,
    pub description: String,
    pub needs_root: bool,
}

pub struct CleanTaskView {
    pub id: Seq<char>,
    pub label: Seq<char>,
    pub description: Seq<char>,
    pub needs_root: bool,
}

impl View for CleanTask {
    type V = CleanTaskView;

    open spec fn view(&self) -> CleanTaskView {
        CleanTaskView {
            id: self.id@,
            label: self.label@,
            description: self.description@,
            needs_root: self.needs_root,
        }
    }
}

pub open spec fn task_views(v: Seq<CleanTask>) -> Seq<CleanTaskView> {
    Seq::new(v.len(), |i: int| v[i]@)
}

pub open spec fn task(id: Seq<char>, label: Seq<char>, description: Seq<char>, needs_root: bool) -> CleanTaskView {
    CleanTaskView { id, label, description, needs_root }
}

/// What the system offers beyond the tasks that are always listed.
pub struct CleanEnvironment {
    /// Bytes in use by the trash folders of all users.
    pub trash_size: u64,
    /// pip is installed and the pip cache exists.
    pub pip_cache: bool,
    /// npm is installed and `~/.npm` exists.
    pub npm_cache: bool,
    /// yarn is installed and the yarn cache exists.
    pub yarn_cache: bool,
    /// docker is installed and `/var/lib/docker` exists.
    pub docker: bool,
    /// flatpak is installed.
    pub flatpak: bool,
}

/// The description of the trash task.
pub open spec fn trash_description(trash_size: u64) -> Seq<char> {
    if trash_size > 0 {
        "Esvazia a lixeira \u{2014} "@ + size_text(trash_size as nat) + " em uso"@
    } else {
        "Esvazia a lixeira (~/.local/share/Trash)"@
    }
}

/// The tasks offered: six that are always listed, the trash, then those whose tool is
/// present, in a fixed order.
pub open spec fn clean_tasks_spec(env: CleanEnvironment) -> Seq<CleanTaskView> {
    let base = seq![
        task("pacman-cache"@, "Cache do Pacman"@, "Remove pacotes antigos (/var/cache/pacman/pkg)"@, true),
        task("pacman-orphans"@, "Pacotes \u{d3}rf\u{e3}os"@, "Remove pacotes sem dependentes instalados"@, true),
        task("journal-logs"@, "Logs do Journal"@, "Limpa logs do systemd (mant\u{e9}m \u{fa}ltimos 7 dias)"@, true),
        task("temp-files"@, "Arquivos Tempor\u{e1}rios"@, "Remove arquivos antigos de /tmp e /var/tmp"@, true),
        task("thumb-cache"@, "Cache de Miniaturas"@, "Limpa thumbnails (~/.cache/thumbnails)"@, false),
        task("coredumps"@, "Core Dumps"@, "Remove arquivos de crash do sistema"@, true),
        task("trash"@, "Lixeira"@, trash_description(env.trash_size), false),
    ];
    let a = if env.pip_cache {
        base.push(task("pip-cache"@, "Cache do Pip"@, "Limpa cache Python (pip)"@, false))
    } else {
        base
    };
    let b = if env.npm_cache {
        a.push(task("npm-cache"@, "Cache do npm"@, "Limpa cache de pacotes Node.js (~/.npm)"@, false))
    } else {
        a
    };
    let c = if env.yarn_cache {
        b.push(task("yarn-cache"@, "Cache do Yarn"@, "Limpa cache do Yarn (~/.cache/yarn)"@, false))
    } else {
        b
    };
    let d = if env.docker {
        c.push(task("docker-prune"@, "Docker (imagens/containers)"@, "Remove imagens e containers parados"@, true))
    } else {
        c
    };
    if env.flatpak {
        d.push(task("flatpak-unused"@, "Flatpak n\u{e3}o usados"@, "Remove runtimes Flatpak desnecess\u{e1}rios"@, false))
    } else {
        d
    }
}

fn mk_task(id: &str, label: &str, description: &str, needs_root: bool) -> (t: CleanTask)
    ensures
        t@ == task(id@, label@, description@, needs_root),
{
    CleanTask {
        id: id.to_string(),
        label: label.to_string(),
        description: description.to_string(),
        needs_root,
    }
}

fn trash_description_exec(trash_size: u64) -> (s: String)
    ensures
        s@ == trash_description(trash_size),
{
    if trash_size > 0 {
        let mut s = "Esvazia a lixeira \u{2014} ".to_string();
        let size = fmt_size(trash_size);
        s.append(size.as_str());
        s.append(" em uso");
        s
    } else {
        "Esvazia a lixeira (~/.local/share/Trash)".to_string()
    }
}

/// The cleanup tasks offered on a system described by `env`.
pub fn available_clean_tasks(env: &CleanEnvironment) -> (tasks: Vec<CleanTask>)
    ensures
        task_views(tasks@) == clean_tasks_spec(*env),
{
    let mut tasks: Vec<CleanTask> = Vec::new();
    tasks.push(mk_task("pacman-cache", "Cache do Pacman", "Remove pacotes antigos (/var/cache/pacman/pkg)", true));
    tasks.push(mk_task("pacman-orphans", "Pacotes \u{d3}rf\u{e3}os", "Remove pacotes sem dependentes instalados", true));
    tasks.push(mk_task("journal-logs", "Logs do Journal", "Limpa logs do systemd (mant\u{e9}m \u{fa}ltimos 7 dias)", true));
    tasks.push(mk_task("temp-files", "Arquivos Tempor\u{e1}rios", "Remove arquivos antigos de /tmp e /var/tmp", true));
    tasks.push(mk_task("thumb-cache", "Cache de Miniaturas", "Limpa thumbnails (~/.cache/thumbnails)", false));
    tasks.push(mk_task("coredumps", "Core Dumps", "Remove arquivos de crash do sistema", true));
    let trash = CleanTask {
        id: "trash".to_string(),
        label: "Lixeira".to_string(),
        description: trash_description_exec(env.trash_size),
        needs_root: false,
    };
    tasks.push(trash);
    let ghost t0 = task_views(tasks@);
    if env.pip_cache {
        tasks.push(mk_task("pip-cache", "Cache do Pip", "Limpa cache Python (pip)", false));
    }
    let ghost t1 = task_views(tasks@);
    if env.npm_cache {
        tasks.push(mk_task("npm-cache", "Cache do npm", "Limpa cache de pacotes Node.js (~/.npm)", false));
    }
    let ghost t2 = task_views(tasks@);
    if env.yarn_cache {
        tasks.push(mk_task("yarn-cache", "Cache do Yarn", "Limpa cache do Yarn (~/.cache/yarn)", false));
    }
    let ghost t3 = task_views(tasks@);
    if env.docker {
        tasks.push(mk_task("docker-prune", "Docker (imagens/containers)", "Remove imagens e containers parados", true));
    }
    let ghost t4 = task_views(tasks@);
    if env.flatpak {
        tasks.push(mk_task("flatpak-unused", "Flatpak n\u{e3}o usados", "Remove runtimes Flatpak desnecess\u{e1}rios", false));
    }
    assert(task_views(tasks@) =~= clean_tasks_spec(*env));
    tasks
}

// ---------------------------------------------------------------------------
// Results
// ---------------------------------------------------------------------------

/// The cleanup task that an id names.
#[derive(PartialEq, Eq, Structural, Clone, Copy, Debug)]
pub enum CleanTaskKind {
    PacmanCache,
    PacmanOrphans,
    JournalLogs,
    TempFiles,
    ThumbCache,
    Coredumps,
    Trash,
    PipCache,
    NpmCache,
    YarnCache,
    DockerPrune,
    FlatpakUnused,
    Unknown,
}

pub open spec fn task_kind_spec(id: Seq<char>) -> CleanTaskKind {
    if id == "pacman-cache"@ {
        CleanTaskKind::PacmanCache
    } else if id == "pacman-orphans"@ {
        CleanTaskKind::PacmanOrphans
    } else if id == "journal-logs"@ {
        CleanTaskKind::JournalLogs
    } else if id == "temp-files"@ {
        CleanTaskKind::TempFiles
    } else if id == "thumb-cache"@ {
        CleanTaskKind::ThumbCache
    } else if id == "coredumps"@ {
        CleanTaskKind::Coredumps
    } else if id == "trash"@ {
        CleanTaskKind::Trash
    } else if id == "pip-cache"@ {
        CleanTaskKind::PipCache
    } else if id == "npm-cache"@ {
        CleanTaskKind::NpmCache
    } else if id == "yarn-cache"@ {
        CleanTaskKind::YarnCache
    } else if id == "docker-prune"@ {
        CleanTaskKind::DockerPrune
    } else if id == "flatpak-unused"@ {
        CleanTaskKind::FlatpakUnused
    } else {
        CleanTaskKind::Unknown
    }
}

/// The task that `id` names.
pub fn clean_task_kind(id: &str) -> (k: CleanTaskKind)
    ensures
        k == task_kind_spec(id@),
{
    let c = chars_of(id);
    let c = c.as_slice();
    if crate::text::chars_eq_str(c, "pacman-cache") {
        CleanTaskKind::PacmanCache
    } else if crate::text::chars_eq_str(c, "pacman-orphans") {
        CleanTaskKind::PacmanOrphans
    } else if crate::text::chars_eq_str(c, "journal-logs") {
        CleanTaskKind::JournalLogs
    } else if crate::text::chars_eq_str(c, "temp-files") {
        CleanTaskKind::TempFiles
    } else if crate::text::chars_eq_str(c, "thumb-cache") {
        CleanTaskKind::ThumbCache
    } else if crate::text::chars_eq_str(c, "coredumps") {
        CleanTaskKind::Coredumps
    } else if crate::text::chars_eq_str(c, "trash") {
        CleanTaskKind::Trash
    } else if crate::text::chars_eq_str(c, "pip-cache") {
        CleanTaskKind::PipCache
    } else if crate::text::chars_eq_str(c, "npm-cache") {
        CleanTaskKind::NpmCache
    } else if crate::text::chars_eq_str(c, "yarn-cache") {
        CleanTaskKind::YarnCache
    } else if crate::text::chars_eq_str(c, "docker-prune") {
        CleanTaskKind::DockerPrune
    } else if crate::text::chars_eq_str(c, "flatpak-unused") {
        CleanTaskKind::FlatpakUnused
    } else {
        CleanTaskKind::Unknown
    }
}

/// What running a task measured.
pub enum CleanOutcome {
    /// Package cache size before and after `paccache`.
    PacmanCache { before: u64, after: u64 },
    /// Number of orphan packages that were found and handed to pacman.
    PacmanOrphans { removed: usize },
    /// Journal size before and after vacuuming.
    JournalLogs { before: u64, after: u64 },
    /// Bytes freed and items removed from the temporary folders.
    TempFiles { freed: u64, count: u32 },
    /// Size of the thumbnail cache that was removed.
    ThumbCache { freed: u64 },
    /// Bytes freed and core dumps removed.
    Coredumps { freed: u64, count: u32 },
    /// Bytes freed and items removed from the trash folders.
    Trash { freed: u64, count: u32 },
    /// Size of the pip cache that was purged.
    PipCache { freed: u64 },
    /// Size of the npm cache that was cleaned.
    NpmCache { freed: u64 },
    /// Size of the yarn cache that was cleaned.
    YarnCache { freed: u64 },
    /// Bytes that docker reported as reclaimed (0 when it reported none).
    DockerPrune { freed: u64 },
    /// Number of "Removing" lines that flatpak printed.
    FlatpakUnused { removed: usize },
    /// A task id that names no task.
    Unknown { id: String },
}

/// The report of a task.
pub struct CleanResult {
    pub success: bool,
    pub result: String,
    pub cleaned: Option<String>,
    pub bytes: u64,
}

pub struct CleanResultView {
    pub success: bool,
    pub result: Seq<char>,
    pub cleaned: Option<Seq<char>>,
    pub bytes: u64,
}

impl View for CleanResult {
    type V = CleanResultView;

    open spec fn view(&self) -> CleanResultView {
        CleanResultView {
            success: self.success,
            result: self.result@,
            cleaned: match self.cleaned {
                Some(c) => Some(c@),
                None => None,
            },
            bytes: self.bytes,
        }
    }
}

pub open spec fn done(result: Seq<char>, freed: u64) -> CleanResultView {
    CleanResultView { success: true, result, cleaned: Some(size_text(freed as nat)), bytes: freed }
}

pub open spec fn sat_sub(a: u64, b: u64) -> u64 {
    if a >= b {
        (a - b) as u64
    } else {
        0
    }
}

/// The report for what a task measured.
pub open spec fn clean_result_spec(o: CleanOutcome) -> CleanResultView {
    match o {
        CleanOutcome::PacmanCache { before, after } => done(
            "Cache limpo (1 vers\u{e3}o mantida)"@,
            sat_sub(before, after),
        ),
        CleanOutcome::PacmanOrphans { removed } => if removed == 0 {
            CleanResultView {
                success: true,
                result: "Nenhum \u{f3}rf\u{e3}o encontrado"@,
                cleaned: None,
                bytes: 0,
            }
        } else {
            CleanResultView {
                success: true,
                result: decimal(removed as nat) + " pacote(s) removido(s)"@,
                cleaned: Some(decimal(removed as nat) + " pacotes"@),
                bytes: 0,
            }
        },
        CleanOutcome::JournalLogs { before, after } => done(
            "Logs compactados (7 dias mantidos)"@,
            sat_sub(before, after),
        ),
        CleanOutcome::TempFiles { freed, count } => done(
            decimal(count as nat) + " itens removidos"@,
            freed,
        ),
        CleanOutcome::ThumbCache { freed } => done("Miniaturas removidas"@, freed),
        CleanOutcome::Coredumps { freed, count } => done(
            decimal(count as nat) + " core dump(s) removido(s)"@,
            freed,
        ),
        CleanOutcome::Trash { freed, count } => if count == 0 {
            CleanResultView {
                success: true,
                result: "Lixeira j\u{e1} est\u{e1} vazia"@,
                cleaned: None,
                bytes: 0,
            }
        } else {
            done(decimal(count as nat) + " item(s) removido(s)"@, freed)
        },
        CleanOutcome::PipCache { freed } => done("Cache pip limpo"@, freed),
        CleanOutcome::NpmCache { freed } => done("Cache npm limpo"@, freed),
        CleanOutcome::YarnCache { freed } => done("Cache yarn limpo"@, freed),
        CleanOutcome::DockerPrune { freed } => CleanResultView {
            success: true,
            result: "Docker limpo"@,
            cleaned: Some(
                if freed > 0 {
                    size_text(freed as nat)
                } else {
                    "feito"@
                },
            ),
            bytes: freed,
        },
        CleanOutcome::FlatpakUnused { removed } => if removed > 0 {
            CleanResultView {
                success: true,
                result: decimal(removed as nat) + " runtime(s) removido(s)"@,
                cleaned: Some(decimal(removed as nat) + " pacotes"@),
                bytes: 0,
            }
        } else {
            CleanResultView {
                success: true,
                result: "Nenhum runtime desnecess\u{e1}rio"@,
                cleaned: None,
                bytes: 0,
            }
        },
        CleanOutcome::Unknown { id } => CleanResultView {
            success: false,
            result: "Tarefa desconhecida: "@ + id@,
            cleaned: Some("\u{2014}"@),
            bytes: 0,
        },
    }
}

/// The report of a task says what it freed: the package cache and the journal report
/// their size before minus their size after when they shrank (nothing when they did
/// not); the tasks that remove files report the bytes they freed; the cleaned text is
/// the size text of the reported bytes (for docker, `feito` when it reported none);
/// the tasks that only count packages report no bytes; the trash reports nothing when
/// it removed no item.
pub proof fn law_reported_bytes_are_freed(o: CleanOutcome)
    ensures
        ({
            let r = clean_result_spec(o);
            match o {
                CleanOutcome::PacmanCache { before, after } => {
                    &&& after <= before ==> r.bytes == before - after
                    &&& after > before ==> r.bytes == 0
                    &&& r.cleaned == Some(size_text(r.bytes as nat))
                    &&& r.success
                },
                CleanOutcome::JournalLogs { before, after } => {
                    &&& after <= before ==> r.bytes == before - after
                    &&& after > before ==> r.bytes == 0
                    &&& r.cleaned == Some(size_text(r.bytes as nat))
                    &&& r.success
                },
                CleanOutcome::TempFiles { freed, count } => r.bytes == freed && r.cleaned == Some(
                    size_text(freed as nat),
                ) && r.result == decimal(count as nat) + " itens removidos"@,
                CleanOutcome::ThumbCache { freed } => r.bytes == freed && r.cleaned == Some(size_text(freed as nat)),
                CleanOutcome::Coredumps { freed, count } => r.bytes == freed && r.cleaned == Some(
                    size_text(freed as nat),
                ) && r.result == decimal(count as nat) + " core dump(s) removido(s)"@,
                CleanOutcome::Trash { freed, count } => if count == 0 {
                    r.bytes == 0 && r.cleaned is None
                } else {
                    r.bytes == freed && r.cleaned == Some(size_text(freed as nat)) && r.result == decimal(
                        count as nat,
                    ) + " item(s) removido(s)"@
                },
                CleanOutcome::PipCache { freed } => r.bytes == freed && r.cleaned == Some(size_text(freed as nat)),
                CleanOutcome::NpmCache { freed } => r.bytes == freed && r.cleaned == Some(size_text(freed as nat)),
                CleanOutcome::YarnCache { freed } => r.bytes == freed && r.cleaned == Some(size_text(freed as nat)),
                CleanOutcome::DockerPrune { freed } => r.bytes == freed && r.cleaned == Some(
                    if freed > 0 {
                        size_text(freed as nat)
                    } else {
                        "feito"@
                    },
                ),
                CleanOutcome::PacmanOrphans { removed } => r.bytes == 0 && (removed == 0 <==> r.cleaned is None),
                CleanOutcome::FlatpakUnused { removed } => r.bytes == 0 && (removed == 0 <==> r.cleaned is None),
                CleanOutcome::Unknown { .. } => r.bytes == 0 && !r.success,
            }
        }),
{
}

/// Sizes under 1 KiB are shown as whole bytes, then in KB, MB and GB from 1 KiB, 1 MiB
/// and 1 GiB on; no size is shown empty.
pub proof fn law_size_text_units(b: nat)
    ensures
        b == 0 ==> size_text(b) == "0 B"@,
        0 < b < 1024 ==> size_text(b) == decimal(b) + " B"@,
        1024 <= b < 1_048_576 ==> size_text(b).subrange(size_text(b).len() - 3, size_text(b).len() as int)
            == " KB"@,
        1_048_576 <= b < 1_073_741_824 ==> size_text(b).subrange(size_text(b).len() - 3, size_text(b).len() as int)
            == " MB"@,
        1_073_741_824 <= b ==> size_text(b).subrange(size_text(b).len() - 3, size_text(b).len() as int)
            == " GB"@,
{
    reveal_strlit(" KB");
    reveal_strlit(" MB");
    reveal_strlit(" GB");
    if b >= 1024 {
        let t = size_text(b);
        if b >= 1_073_741_824 {
            assert(t.subrange(t.len() - 3, t.len() as int) =~= " GB"@);
        } else if b >= 1_048_576 {
            assert(t.subrange(t.len() - 3, t.len() as int) =~= " MB"@);
        } else {
            assert(t.subrange(t.len() - 3, t.len() as int) =~= " KB"@);
        }
    }
}

/// A task reports failure only when its id names no task.
pub proof fn law_only_unknown_tasks_fail(o: CleanOutcome)
    ensures
        !clean_result_spec(o).success <==> o is Unknown,
{
}

/// Every task offered can be run: its id names a task, and no two offered tasks name
/// the same one.
pub proof fn law_offered_tasks_are_known(env: CleanEnvironment)
    ensures
        forall|i: int|
            0 <= i < clean_tasks_spec(env).len() ==> task_kind_spec(#[trigger] clean_tasks_spec(env)[i].id)
                != CleanTaskKind::Unknown,
        forall|i: int, j: int|
            0 <= i < j < clean_tasks_spec(env).len() ==> task_kind_spec(
                #[trigger] clean_tasks_spec(env)[i].id,
            ) != task_kind_spec(#[trigger] clean_tasks_spec(env)[j].id),
{
    reveal_strlit("pacman-cache");
    reveal_strlit("pacman-orphans");
    reveal_strlit("journal-logs");
    reveal_strlit("temp-files");
    reveal_strlit("thumb-cache");
    reveal_strlit("coredumps");
    reveal_strlit("trash");
    reveal_strlit("pip-cache");
    reveal_strlit("npm-cache");
    reveal_strlit("yarn-cache");
    reveal_strlit("docker-prune");
    reveal_strlit("flatpak-unused");
    assert("pacman-cache"@[0] != "journal-logs"@[0]);
    assert("pacman-cache"@[0] != "docker-prune"@[0]);
    assert("journal-logs"@[0] != "docker-prune"@[0]);
    assert("pacman-orphans"@[0] != "flatpak-unused"@[0]);
    assert("temp-files"@[0] != "yarn-cache"@[0]);
    assert("coredumps"@[0] != "pip-cache"@[0]);
    assert("coredumps"@[0] != "npm-cache"@[0]);
    assert("pip-cache"@[0] != "npm-cache"@[0]);
    assert(task_kind_spec("pacman-cache"@) == CleanTaskKind::PacmanCache);
    assert("pacman-orphans"@.len() != "pacman-cache"@.len());
    assert("thumb-cache"@.len() != "pacman-cache"@.len());
    assert("thumb-cache"@.len() != "pacman-orphans"@.len());
    assert("thumb-cache"@.len() != "journal-logs"@.len());
    assert("thumb-cache"@.len() != "temp-files"@.len());
    assert(task_kind_spec("pacman-orphans"@) == CleanTaskKind::PacmanOrphans);
    assert(task_kind_spec("journal-logs"@) == CleanTaskKind::JournalLogs);
    assert(task_kind_spec("temp-files"@) == CleanTaskKind::TempFiles);
    assert(task_kind_spec("thumb-cache"@) == CleanTaskKind::ThumbCache);
    assert(task_kind_spec("coredumps"@) == CleanTaskKind::Coredumps);
    assert(task_kind_spec("trash"@) == CleanTaskKind::Trash);
    assert(task_kind_spec("pip-cache"@) == CleanTaskKind::PipCache);
    assert(task_kind_spec("npm-cache"@) == CleanTaskKind::NpmCache);
    assert(task_kind_spec("yarn-cache"@) == CleanTaskKind::YarnCache);
    assert(task_kind_spec("docker-prune"@) == CleanTaskKind::DockerPrune);
    assert(task_kind_spec("flatpak-unused"@) == CleanTaskKind::FlatpakUnused);
}

fn done_exec(result: String, freed: u64) -> (r: CleanResult)
    ensures
        r@ == done(result@, freed),
{
    CleanResult { success: true, result, cleaned: Some(fmt_size(freed)), bytes: freed }
}

/// `n` followed by `lit`.
fn count_text(n: u64, lit: &str) -> (s: String)
    ensures
        s@ == decimal(n as nat) + lit@,
{
    let v = text_then(decimal_chars(n), lit);
    string_of(v.as_slice())
}

/// The report of a task from what running it measured.
pub fn clean_result(o: CleanOutcome) -> (r: CleanResult)
    ensures
        r@ == clean_result_spec(o),
{
    match o {
        CleanOutcome::PacmanCache { before, after } => done_exec(
            "Cache limpo (1 vers\u{e3}o mantida)".to_string(),
            before.saturating_sub(after),
        ),
        CleanOutcome::PacmanOrphans { removed } => {
            if removed == 0 {
                CleanResult {
                    success: true,
                    result: "Nenhum \u{f3}rf\u{e3}o encontrado".to_string(),
                    cleaned: None,
                    bytes: 0,
                }
            } else {
                CleanResult {
                    success: true,
                    result: count_text(removed as u64, " pacote(s) removido(s)"),
                    cleaned: Some(count_text(removed as u64, " pacotes")),
                    bytes: 0,
                }
            }
        },
        CleanOutcome::JournalLogs { before, after } => done_exec(
            "Logs compactados (7 dias mantidos)".to_string(),
            before.saturating_sub(after),
        ),
        CleanOutcome::TempFiles { freed, count } => done_exec(
            count_text(count as u64, " itens removidos"),
            freed,
        ),
        CleanOutcome::ThumbCache { freed } => done_exec("Miniaturas removidas".to_string(), freed),
        CleanOutcome::Coredumps { freed, count } => done_exec(
            count_text(count as u64, " core dump(s) removido(s)"),
            freed,
        ),
        CleanOutcome::Trash { freed, count } => {
            if count == 0 {
                CleanResult {
                    success: true,
                    result: "Lixeira j\u{e1} est\u{e1} vazia".to_string(),
                    cleaned: None,
                    bytes: 0,
                }
            } else {
                done_exec(count_text(count as u64, " item(s) removido(s)"), freed)
            }
        },
        CleanOutcome::PipCache { freed } => done_exec("Cache pip limpo".to_string(), freed),
        CleanOutcome::NpmCache { freed } => done_exec("Cache npm limpo".to_string(), freed),
        CleanOutcome::YarnCache { freed } => done_exec("Cache yarn limpo".to_string(), freed),
        CleanOutcome::DockerPrune { freed } => CleanResult {
            success: true,
            result: "Docker limpo".to_string(),
            cleaned: Some(
                if freed > 0 {
                    fmt_size(freed)
                } else {
                    "feito".to_string()
                },
            ),
            bytes: freed,
        },
        CleanOutcome::FlatpakUnused { removed } => {
            if removed > 0 {
                CleanResult {
                    success: true,
                    result: count_text(removed as u64, " runtime(s) removido(s)"),
                    cleaned: Some(count_text(removed as u64, " pacotes")),
                    bytes: 0,
                }
            } else {
                CleanResult {
                    success: true,
                    result: "Nenhum runtime desnecess\u{e1}rio".to_string(),
                    cleaned: None,
                    bytes: 0,
                }
            }
        },
        CleanOutcome::Unknown { id } => {
            let mut r = "Tarefa desconhecida: ".to_string();
            r.append(id.as_str());
            CleanResult { success: false, result: r, cleaned: Some("\u{2014}".to_string()), bytes: 0 }
        },
    }
}

// ---------------------------------------------------------------------------
// Space reclaimed by docker
// ---------------------------------------------------------------------------

pub open spec fn is_number_char(c: char) -> bool {
    crate::text::is_digit(c) || c == '.'
}

/// Start of the run of digits and dots that ends just before `pos`.
pub open spec fn number_run_start(line: Seq<char>, pos: int) -> int
    decreases pos,
{
    if 0 < pos <= line.len() && is_number_char(line[pos - 1]) {
        number_run_start(line, pos - 1)
    } else {
        pos
    }
}

/// Number of `'.'` in `t`.
pub open spec fn dot_count(t: Seq<char>) -> nat
    decreases t.len(),
{
    if t.len() == 0 {
        0
    } else {
        dot_count(t.drop_last()) + if t.last() == '.' {
            1nat
        } else {
            0nat
        }
    }
}

/// A run of digits and dots that `f64::from_str` accepts: at most one dot and at
/// least one digit.
pub open spec fn float_run(t: Seq<char>) -> bool {
    dot_count(t) <= 1 && exists|i: int| 0 <= i < t.len() && crate::text::is_digit(t[i])
}

/// The number written right before the first occurrence of `unit`, with the byte
/// multiplier of the unit, if that occurrence is preceded by a number.
pub open spec fn unit_candidate(line: Seq<char>, unit: Seq<char>, mult: u64) -> Option<(Seq<char>, u64)> {
    match crate::text::find(line, unit) {
        Some(p) => {
            let n = line.subrange(number_run_start(line, p), p);
            if float_run(n) {
                Some((n, mult))
            } else {
                None
            }
        },
        None => None,
    }
}

/// The size docker reports in a line: the first of GB, MB, kB and B (tried in that
/// order) that is written right after a number, as the number's text and the unit's
/// multiplier.
pub open spec fn docker_size_spec(line: Seq<char>) -> Option<(Seq<char>, u64)> {
    match unit_candidate(line, "GB"@, 1_073_741_824) {
        Some(c) => Some(c),
        None => match unit_candidate(line, "MB"@, 1_048_576) {
            Some(c) => Some(c),
            None => match unit_candidate(line, "kB"@, 1024) {
                Some(c) => Some(c),
                None => unit_candidate(line, "B"@, 1),
            },
        },
    }
}

fn number_run_start_exec(line: &[char], pos: usize) -> (r: usize)
    requires
        pos <= line.len(),
    ensures
        r == number_run_start(line@, pos as int),
        r <= pos,
{
    let mut k = pos;
    while k > 0 && (crate::text::is_digit_char(line[k - 1]) || line[k - 1] == '.')
        invariant
            k <= pos <= line.len(),
            number_run_start(line@, pos as int) == number_run_start(line@, k as int),
        decreases k,
    {
        k = k - 1;
    }
    k
}

fn float_run_exec(t: &[char]) -> (r: bool)
    ensures
        r == float_run(t@),
{
    let mut dots: usize = 0;
    let mut digit = false;
    let mut i: usize = 0;
    assert(t@.take(0) =~= Seq::<char>::empty());
    while i < t.len()
        invariant
            i <= t.len(),
            dots == dot_count(t@.take(i as int)),
            dots <= i,
            digit == exists|j: int| 0 <= j < i && crate::text::is_digit(t@[j]),
        decreases t.len() - i,
    {
        assert(t@.take(i + 1).drop_last() =~= t@.take(i as int));
        if t[i] == '.' {
            dots = dots + 1;
        }
        if crate::text::is_digit_char(t[i]) {
            digit = true;
        }
        i = i + 1;
    }
    assert(t@.take(t.len() as int) =~= t@);
    dots <= 1 && digit
}

fn unit_candidate_exec(line: &[char], unit: &str, mult: u64) -> (r: Option<(Vec<char>, u64)>)
    ensures
        r matches Some((n, m)) ==> unit_candidate(line@, unit@, mult) == Some((n@, m)),
        r is None ==> unit_candidate(line@, unit@, mult) is None,
{
    let u = chars_of(unit);
    match crate::text::find_chars(line, u.as_slice()) {
        Some(p) => {
            assert(crate::text::occurs_at(line@, u@, p as int));
            let st = number_run_start_exec(line, p);
            let n = crate::text::slice_chars(line, st, p);
            if float_run_exec(n.as_slice()) {
                Some((n, mult))
            } else {
                None
            }
        },
        None => None,
    }
}

/// The number and multiplier of the size that a line of `docker system prune` output
/// reports.
pub fn parse_docker_size(line: &str) -> (r: Option<(String, u64)>)
    ensures
        r matches Some((n, m)) ==> docker_size_spec(line@) == Some((n@, m)),
        r is None ==> docker_size_spec(line@) is None,
{
    let l = chars_of(line);
    let l = l.as_slice();
    let c = match unit_candidate_exec(l, "GB", 1_073_741_824) {
        Some(c) => Some(c),
        None => match unit_candidate_exec(l, "MB", 1_048_576) {
            Some(c) => Some(c),
            None => match unit_candidate_exec(l, "kB", 1024) {
                Some(c) => Some(c),
                None => unit_candidate_exec(l, "B", 1),
            },
        },
    };
    match c {
        Some((n, m)) => Some((string_of(n.as_slice()), m)),
        None => None,
    }
}

/// The size docker reports on the first line of its output that mentions
/// "reclaimed" in any letter case.
pub open spec fn reclaimed_spec(output: Seq<char>) -> Option<(Seq<char>, u64)> {
    let ls = crate::text::lines(output);
    match crate::text::first_index(
        ls,
        |l: Seq<char>| crate::text::contains(crate::text::lowercase(l), "reclaimed"@),
    ) {
        Some(i) => docker_size_spec(ls[i]),
        None => None,
    }
}

pub fn docker_reclaimed(output: &str) -> (r: Option<(String, u64)>)
    ensures
        r matches Some((n, m)) ==> reclaimed_spec(output@) == Some((n@, m)),
        r is None ==> reclaimed_spec(output@) is None,
{
    let cs = chars_of(output);
    let ls = crate::text::split_lines(cs.as_slice());
    let ghost p = |l: Seq<char>| crate::text::contains(crate::text::lowercase(l), "reclaimed"@);
    let mut i: usize = 0;
    while i < ls.len()
        invariant
            i <= ls.len(),
            p == (|l: Seq<char>| crate::text::contains(crate::text::lowercase(l), "reclaimed"@)),
            crate::text::views(ls@) == crate::text::lines(output@),
            forall|j: int| 0 <= j < i ==> !p(#[trigger] crate::text::views(ls@)[j]),
        decreases ls.len() - i,
    {
        assert(crate::text::views(ls@)[i as int] == ls@[i as int]@);
        let low = crate::text::lowercase_chars(ls[i].as_slice());
        if crate::text::contains_str(low.as_slice(), "reclaimed") {
            proof {
                crate::text::lemma_first_index_at(crate::text::views(ls@), p, i as int);
            }
            let line = string_of(ls[i].as_slice());
            return parse_docker_size(line.as_str());
        }
        i = i + 1;
    }
    proof {
        crate::text::lemma_first_index_none(crate::text::views(ls@), p);
    }
    None
}

/// The task that an outcome was measured for (`Unknown` for the unknown-task outcome).
pub open spec fn outcome_kind(o: CleanOutcome) -> CleanTaskKind {
    match o {
        CleanOutcome::PacmanCache { .. } => CleanTaskKind::PacmanCache,
        CleanOutcome::PacmanOrphans { .. } => CleanTaskKind::PacmanOrphans,
        CleanOutcome::JournalLogs { .. } => CleanTaskKind::JournalLogs,
        CleanOutcome::TempFiles { .. } => CleanTaskKind::TempFiles,
        CleanOutcome::ThumbCache { .. } => CleanTaskKind::ThumbCache,
        CleanOutcome::Coredumps { .. } => CleanTaskKind::Coredumps,
        CleanOutcome::Trash { .. } => CleanTaskKind::Trash,
        CleanOutcome::PipCache { .. } => CleanTaskKind::PipCache,
        CleanOutcome::NpmCache { .. } => CleanTaskKind::NpmCache,
        CleanOutcome::YarnCache { .. } => CleanTaskKind::YarnCache,
        CleanOutcome::DockerPrune { .. } => CleanTaskKind::DockerPrune,
        CleanOutcome::FlatpakUnused { .. } => CleanTaskKind::FlatpakUnused,
        CleanOutcome::Unknown { .. } => CleanTaskKind::Unknown,
    }
}

/// The task that `o` was measured for.
pub fn kind_of_outcome(o: &CleanOutcome) -> (k: CleanTaskKind)
    ensures
        k == outcome_kind(*o),
{
    match o {
        CleanOutcome::PacmanCache { .. } => CleanTaskKind::PacmanCache,
        CleanOutcome::PacmanOrphans { .. } => CleanTaskKind::PacmanOrphans,
        CleanOutcome::JournalLogs { .. } => CleanTaskKind::JournalLogs,
        CleanOutcome::TempFiles { .. } => CleanTaskKind::TempFiles,
        CleanOutcome::ThumbCache { .. } => CleanTaskKind::ThumbCache,
        CleanOutcome::Coredumps { .. } => CleanTaskKind::Coredumps,
        CleanOutcome::Trash { .. } => CleanTaskKind::Trash,
        CleanOutcome::PipCache { .. } => CleanTaskKind::PipCache,
        CleanOutcome::NpmCache { .. } => CleanTaskKind::NpmCache,
        CleanOutcome::YarnCache { .. } => CleanTaskKind::YarnCache,
        CleanOutcome::DockerPrune { .. } => CleanTaskKind::DockerPrune,
        CleanOutcome::FlatpakUnused { .. } => CleanTaskKind::FlatpakUnused,
        CleanOutcome::Unknown { .. } => CleanTaskKind::Unknown,
    }
}

/// The report for an id that names no task.
pub open spec fn unknown_task_report(id: Seq<char>) -> CleanResultView {
    CleanResultView {
        success: false,
        result: "Tarefa desconhecida: "@ + id,
        cleaned: Some("\u{2014}"@),
        bytes: 0,
    }
}

/// The report of running task `task_id`: the unknown-task report when the id names no
/// task; otherwise the report of what running the named task measured (`measured`,
/// which must be an outcome of that task). A task succeeds exactly when its id names
/// one of the twelve tasks; a failed one reports 0 bytes and a dash.
pub fn clean_report(task_id: &str, measured: Option<CleanOutcome>) -> (r: CleanResult)
    requires
        task_kind_spec(task_id@) != CleanTaskKind::Unknown ==> (measured matches Some(o) && outcome_kind(o)
            == task_kind_spec(task_id@)),
    ensures
        task_kind_spec(task_id@) == CleanTaskKind::Unknown ==> r@ == unknown_task_report(task_id@),
        task_kind_spec(task_id@) != CleanTaskKind::Unknown ==> (measured matches Some(o) && r@
            == clean_result_spec(o)),
        r.success <==> task_kind_spec(task_id@) != CleanTaskKind::Unknown,
        !r.success ==> r@.bytes == 0 && r@.cleaned == Some("\u{2014}"@),
{
    let k = clean_task_kind(task_id);
    if k == CleanTaskKind::Unknown {
        clean_result(CleanOutcome::Unknown { id: task_id.to_string() })
    } else {
        match measured {
            Some(o) => clean_result(o),
            None => clean_result(CleanOutcome::Unknown { id: task_id.to_string() }),
        }
    }
}

/// The line shown after a task ran: its result and, in parentheses, what it cleaned
/// (empty when nothing is reported).
pub open spec fn result_line_spec(r: CleanResultView) -> Seq<char> {
    r.result + " ("@ + match r.cleaned {
        Some(c) => c,
        None => Seq::empty(),
    } + ")"@
}

pub fn result_line(r: &CleanResult) -> (s: String)
    ensures
        s@ == result_line_spec(r@),
{
    let mut v = chars_of(r.result.as_str());
    append_chars(&mut v, chars_of(" (").as_slice());
    match &r.cleaned {
        Some(c) => append_chars(&mut v, chars_of(c.as_str()).as_slice()),
        None => {},
    }
    append_chars(&mut v, chars_of(")").as_slice());
    proof {
        reveal_strlit("");
    }
    let s = string_of(v.as_slice());
    assert(s@ =~= result_line_spec(r@));
    s
}

// ---------------------------------------------------------------------------
// Old temporary files
// ---------------------------------------------------------------------------

/// The directories that the temp-files task cleans.
#[derive(PartialEq, Eq, Structural, Clone, Copy, Debug)]
pub enum TempRoot {
    /// `/tmp`
    Tmp,
    /// `/var/tmp`
    VarTmp,
}

/// Days an entry of `/tmp` stays unmodified before it counts as old (the age
/// systemd-tmpfiles gives `/tmp`).
pub const TMP_MAX_AGE_DAYS: u64 = 10;

/// Days an entry of `/var/tmp` stays unmodified before it counts as old (the age
/// systemd-tmpfiles gives `/var/tmp`).
pub const VAR_TMP_MAX_AGE_DAYS: u64 = 30;

/// An entry of a temporary directory: its path, the directory it is in, and the
/// seconds since it was last modified.
pub struct TempEntry {
    pub path: String,
    pub root: TempRoot,
    pub age_secs: u64,
}

/// The age in seconds from which an entry of `root` is old.
pub open spec fn max_age_secs(root: TempRoot) -> nat {
    match root {
        TempRoot::Tmp => TMP_MAX_AGE_DAYS as nat * 86400,
        TempRoot::VarTmp => VAR_TMP_MAX_AGE_DAYS as nat * 86400,
    }
}

/// The entry is old: unmodified for at least its directory's age.
pub open spec fn is_old_entry(e: TempEntry) -> bool {
    e.age_secs >= max_age_secs(e.root)
}

/// The paths of the old entries, in order; recent entries are kept.
pub open spec fn old_paths_spec(s: Seq<TempEntry>) -> Seq<Seq<char>>
    decreases s.len(),
{
    if s.len() == 0 {
        seq![]
    } else {
        let p = old_paths_spec(s.drop_last());
        if is_old_entry(s.last()) {
            p.push(s.last().path@)
        } else {
            p
        }
    }
}

/// Bytes freed by the removals that succeeded (`Some(size)`).
pub open spec fn freed_total(s: Seq<Option<u64>>) -> nat
    decreases s.len(),
{
    if s.len() == 0 {
        0
    } else {
        freed_total(s.drop_last()) + match s.last() {
            Some(b) => b as nat,
            None => 0,
        }
    }
}

/// Number of removals that succeeded.
pub open spec fn removed_count(s: Seq<Option<u64>>) -> nat
    decreases s.len(),
{
    if s.len() == 0 {
        0
    } else {
        removed_count(s.drop_last()) + if s.last() is Some {
            1nat
        } else {
            0nat
        }
    }
}

proof fn lemma_tally_grows(s: Seq<Option<u64>>, i: int)
    requires
        0 <= i <= s.len(),
    ensures
        freed_total(s.take(i)) <= freed_total(s),
        removed_count(s.take(i)) <= removed_count(s),
    decreases s.len() - i,
{
    if i < s.len() {
        lemma_tally_grows(s, i + 1);
        assert(s.take(i + 1).drop_last() =~= s.take(i));
    } else {
        assert(s.take(i) =~= s);
    }
}

/// What a cleanup task removed, from the outcome of each removal it tried (the size of
/// an entry that was removed, `None` for one that could not be): the bytes freed and the
/// number of entries removed; `None` when a total does not fit its type.
pub fn removal_tally(outcomes: &[Option<u64>]) -> (r: Option<(u64, u32)>)
    ensures
        r is None <==> (freed_total(outcomes@) > u64::MAX || removed_count(outcomes@) > u32::MAX),
        r matches Some((freed, count)) ==> freed == freed_total(outcomes@) && count == removed_count(
            outcomes@,
        ),
{
    let mut freed: u64 = 0;
    let mut count: u32 = 0;
    let mut i: usize = 0;
    assert(outcomes@.take(0) =~= Seq::<Option<u64>>::empty());
    while i < outcomes.len()
        invariant
            i <= outcomes.len(),
            freed == freed_total(outcomes@.take(i as int)),
            count == removed_count(outcomes@.take(i as int)),
        decreases outcomes.len() - i,
    {
        assert(outcomes@.take(i + 1).drop_last() =~= outcomes@.take(i as int));
        assert(outcomes@.take(i + 1).last() == outcomes@[i as int]);
        match outcomes[i] {
            Some(b) => {
                if b > u64::MAX - freed || count == u32::MAX {
                    proof {
                        lemma_tally_grows(outcomes@, i + 1);
                    }
                    return None;
                }
                freed = freed + b;
                count = count + 1;
            },
            None => {},
        }
        i = i + 1;
    }
    assert(outcomes@.take(outcomes.len() as int) =~= outcomes@);
    Some((freed, count))
}

/// The entries of `/tmp` and `/var/tmp` that the temp-files task removes: those not
/// modified for `TMP_MAX_AGE_DAYS` or `VAR_TMP_MAX_AGE_DAYS` days.
pub fn old_temp_paths(entries: &[TempEntry]) -> (r: Vec<String>)
    ensures
        string_seq(r@) == old_paths_spec(entries@),
{
    let mut out: Vec<String> = Vec::new();
    let mut i: usize = 0;
    assert(entries@.take(0) =~= Seq::<TempEntry>::empty());
    while i < entries.len()
        invariant
            i <= entries.len(),
            string_seq(out@) == old_paths_spec(entries@.take(i as int)),
        decreases entries.len() - i,
    {
        assert(entries@.take(i + 1).drop_last() =~= entries@.take(i as int));
        assert(entries@.take(i + 1).last() == entries@[i as int]);
        let e = &entries[i];
        let limit: u64 = match e.root {
            TempRoot::Tmp => TMP_MAX_AGE_DAYS * 86400,
            TempRoot::VarTmp => VAR_TMP_MAX_AGE_DAYS * 86400,
        };
        if e.age_secs >= limit {
            let ghost before = string_seq(out@);
            out.push(string_of(chars_of(e.path.as_str()).as_slice()));
            assert(string_seq(out@) =~= before.push(e.path@));
        }
        i = i + 1;
    }
    assert(entries@.take(entries.len() as int) =~= entries@);
    out
}

/// The temp-files task removes a path exactly when an old entry has it: an entry
/// modified within its directory's age stays unless an old entry shares its path.
pub proof fn law_recent_temp_files_stay(s: Seq<TempEntry>, x: Seq<char>)
    ensures
        old_paths_spec(s).contains(x) <==> exists|j: int|
            0 <= j < s.len() && is_old_entry(#[trigger] s[j]) && s[j].path@ == x,
    decreases s.len(),
{
    if s.len() > 0 {
        law_recent_temp_files_stay(s.drop_last(), x);
        let p = old_paths_spec(s.drop_last());
        if p.contains(x) {
            let j = choose|j: int| 0 <= j < s.drop_last().len() && is_old_entry(#[trigger] s.drop_last()[j])
                && s.drop_last()[j].path@ == x;
            assert(s[j] == s.drop_last()[j]);
            assert(is_old_entry(s[j]) && s[j].path@ == x);
            if is_old_entry(s.last()) {
                assert(old_paths_spec(s) == p.push(s.last().path@));
                let k = choose|k: int| 0 <= k < p.len() && p[k] == x;
                assert(p.push(s.last().path@)[k] == x);
            } else {
                assert(old_paths_spec(s) == p);
            }
        }
        if exists|j: int| 0 <= j < s.len() && is_old_entry(#[trigger] s[j]) && s[j].path@ == x {
            let j = choose|j: int| 0 <= j < s.len() && is_old_entry(#[trigger] s[j]) && s[j].path@ == x;
            if j < s.len() - 1 {
                assert(s.drop_last()[j] == s[j]);
            } else {
                assert(s[j] == s.last());
                assert(old_paths_spec(s) == p.push(x));
                assert(p.push(x)[p.len() as int] == x);
            }
        }
        if old_paths_spec(s).contains(x) && !p.contains(x) {
            let k = choose|k: int| 0 <= k < old_paths_spec(s).len() && old_paths_spec(s)[k] == x;
            if is_old_entry(s.last()) {
                assert(old_paths_spec(s) == p.push(s.last().path@));
                if k < p.len() {
                    assert(p.push(s.last().path@)[k] == p[k]);
                    assert(p.contains(x));
                } else {
                    assert(s[s.len() - 1] == s.last());
                    assert(is_old_entry(s[s.len() - 1]) && s[s.len() - 1].path@ == x);
                }
            } else {
                assert(old_paths_spec(s) == p);
            }
        }
    }
}

// ---------------------------------------------------------------------------
// Tool output
// ---------------------------------------------------------------------------

/// The byte count that `du -sb` prints first.
pub open spec fn du_bytes_spec(out: Seq<char>) -> Option<u64> {
    match token_nth(out, 0) {
        Some(t) => parse_u64(t),
        None => None,
    }
}

pub fn du_bytes(stdout: &str) -> (r: Option<u64>)
    ensures
        r == du_bytes_spec(stdout@),
{
    let c = chars_of(stdout);
    match token_nth_chars(c.as_slice(), 0) {
        Some(t) => parse_u64_chars(t.as_slice()),
        None => None,
    }
}

/// The package names that `pacman -Qdtq` lists: its lines trimmed, empty ones left
/// out.
pub open spec fn orphans_spec(ls: Seq<Seq<char>>) -> Seq<Seq<char>>
    decreases ls.len(),
{
    if ls.len() == 0 {
        seq![]
    } else {
        let p = orphans_spec(ls.drop_last());
        if trim(ls.last()).len() > 0 {
            p.push(trim(ls.last()))
        } else {
            p
        }
    }
}

pub fn orphan_packages(stdout: &str) -> (r: Vec<String>)
    ensures
        string_seq(r@) == orphans_spec(lines(stdout@)),
{
    let c = chars_of(stdout);
    let ls = split_lines(c.as_slice());
    let ghost lv = views(ls@);
    let mut out: Vec<String> = Vec::new();
    let mut i: usize = 0;
    assert(lv.take(0) =~= Seq::<Seq<char>>::empty());
    while i < ls.len()
        invariant
            i <= ls.len(),
            lv == views(ls@),
            string_seq(out@) == orphans_spec(lv.take(i as int)),
        decreases ls.len() - i,
    {
        assert(lv.take(i + 1).drop_last() =~= lv.take(i as int));
        assert(lv.take(i + 1).last() == ls@[i as int]@);
        let t = trim_chars(ls[i].as_slice());
        if t.len() > 0 {
            let ghost before = string_seq(out@);
            out.push(string_of(t.as_slice()));
            assert(string_seq(out@) =~= before.push(t@));
        }
        i = i + 1;
    }
    assert(lv.take(ls.len() as int) =~= lv);
    out
}

/// Number of lines that mention `Removing`.
pub open spec fn removing_count(ls: Seq<Seq<char>>) -> nat
    decreases ls.len(),
{
    if ls.len() == 0 {
        0
    } else {
        removing_count(ls.drop_last()) + if contains(ls.last(), "Removing"@) {
            1nat
        } else {
            0nat
        }
    }
}

/// How many runtimes `flatpak uninstall --unused` removed: its lines that say
/// `Removing`.
pub fn flatpak_removed(stdout: &str) -> (n: usize)
    ensures
        n == removing_count(lines(stdout@)),
{
    let c = chars_of(stdout);
    let ls = split_lines(c.as_slice());
    let ghost lv = views(ls@);
    let mut n: usize = 0;
    let mut i: usize = 0;
    assert(lv.take(0) =~= Seq::<Seq<char>>::empty());
    while i < ls.len()
        invariant
            i <= ls.len(),
            lv == views(ls@),
            n == removing_count(lv.take(i as int)),
            n <= i,
        decreases ls.len() - i,
    {
        assert(lv.take(i + 1).drop_last() =~= lv.take(i as int));
        assert(lv.take(i + 1).last() == ls@[i as int]@);
        if contains_str(ls[i].as_slice(), "Removing") {
            n = n + 1;
        }
        i = i + 1;
    }
    assert(lv.take(ls.len() as int) =~= lv);
    n
}

} // verus!
