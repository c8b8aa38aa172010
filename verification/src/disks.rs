//! The mounted filesystems worth showing, from the output of
//! `df -B1 --output=target,fstype,size,used,avail`.
use vstd::prelude::*;
use crate::text::{
    chars_eq_str, chars_of, lines, split_lines, split_tokens, starts_with, starts_with_str,
    string_of, tokens, views,
};

verus! {

/// A mounted filesystem with its sizes in bytes as `df` wrote them.
pub struct DfRow {
    pub mountpoint: String,
    pub fstype: String,
    pub size_text: String,
    pub used_text: String,
    pub avail_text: String,
}

pub struct DfRowView {
    pub mountpoint: Seq<char>,
    pub fstype: Seq<char>,
    pub size_text: Seq<char>,
    pub used_text: Seq<char>,
    pub avail_text: Seq<char>,
}

impl View for DfRow {
    type V = DfRowView;

    open spec fn view(&self) -> DfRowView {
        DfRowView {
            mountpoint: self.mountpoint@,
            fstype: self.fstype@,
            size_text: self.size_text@,
            used_text: self.used_text@,
            avail_text: self.avail_text@,
        }
    }
}

pub open spec fn df_views(v: Seq<DfRow>) -> Seq<DfRowView> {
    Seq::new(v.len(), |i: int| v[i]@)
}

/// A mount point of the kernel's pseudo filesystems or outside the tree.
pub open spec fn hidden_mount(m: Seq<char>) -> bool {
    !starts_with(m, "/"@) || starts_with(m, "/sys"@) || starts_with(m, "/proc"@) || starts_with(
        m,
        "/dev"@,
    ) || starts_with(m, "/run"@)
}

/// A filesystem type that is virtual, a container layer or a network share.
pub open spec fn hidden_fstype(t: Seq<char>) -> bool {
    t == "tmpfs"@ || t == "devtmpfs"@ || t == "squashfs"@ || t == "overlay"@ || t == "proc"@ || t
        == "sysfs"@ || t == "cgroup2"@ || starts_with(t, "fuse"@) || t == "nfs"@ || t == "nfs4"@
        || t == "cifs"@ || t == "autofs"@
}

/// The filesystem of one line of `df` output, if it has five words and is not hidden.
pub open spec fn df_row(l: Seq<char>) -> Option<DfRowView> {
    let f = tokens(l);
    if f.len() < 5 || hidden_mount(f[0]) || hidden_fstype(f[1]) {
        None
    } else {
        Some(DfRowView { mountpoint: f[0], fstype: f[1], size_text: f[2], used_text: f[3], avail_text: f[4] })
    }
}

pub open spec fn df_rows(ls: Seq<Seq<char>>) -> Seq<DfRowView>
    decreases ls.len(),
{
    if ls.len() == 0 {
        seq![]
    } else {
        let p = df_rows(ls.drop_last());
        match df_row(ls.last()) {
            Some(r) => p.push(r),
            None => p,
        }
    }
}

/// The lines after the header line.
pub open spec fn after_header(ls: Seq<Seq<char>>) -> Seq<Seq<char>> {
    if ls.len() <= 1 {
        seq![]
    } else {
        ls.skip(1)
    }
}

fn hidden_mount_exec(m: &[char]) -> (r: bool)
    ensures
        r == hidden_mount(m@),
{
    !starts_with_str(m, "/") || starts_with_str(m, "/sys") || starts_with_str(m, "/proc")
        || starts_with_str(m, "/dev") || starts_with_str(m, "/run")
}

fn hidden_fstype_exec(t: &[char]) -> (r: bool)
    ensures
        r == hidden_fstype(t@),
{
    chars_eq_str(t, "tmpfs") || chars_eq_str(t, "devtmpfs") || chars_eq_str(t, "squashfs")
        || chars_eq_str(t, "overlay") || chars_eq_str(t, "proc") || chars_eq_str(t, "sysfs")
        || chars_eq_str(t, "cgroup2") || starts_with_str(t, "fuse") || chars_eq_str(t, "nfs")
        || chars_eq_str(t, "nfs4") || chars_eq_str(t, "cifs") || chars_eq_str(t, "autofs")
}

fn df_row_exec(l: &[char]) -> (r: Option<DfRow>)
    ensures
        r matches Some(x) ==> df_row(l@) == Some(x@),
        r is None ==> df_row(l@) is None,
{
    let f = split_tokens(l);
    if f.len() < 5 {
        return None;
    }
    assert(forall|k: int| 0 <= k < 5 ==> views(f@)[k] == #[trigger] f@[k]@);
    if hidden_mount_exec(f[0].as_slice()) || hidden_fstype_exec(f[1].as_slice()) {
        return None;
    }
    Some(
        DfRow {
            mountpoint: string_of(f[0].as_slice()),
            fstype: string_of(f[1].as_slice()),
            size_text: string_of(f[2].as_slice()),
            used_text: string_of(f[3].as_slice()),
            avail_text: string_of(f[4].as_slice()),
        },
    )
}

/// The filesystems `df` lists after its header line, pseudo, container and network
/// filesystems left out.
pub fn parse_df(stdout: &str) -> (r: Vec<DfRow>)
    ensures
        df_views(r@) == df_rows(after_header(lines(stdout@))),
{
    let cs = chars_of(stdout);
    let ls = split_lines(cs.as_slice());
    let mut out: Vec<DfRow> = Vec::new();
    if ls.len() <= 1 {
        return out;
    }
    let ghost body = views(ls@).skip(1);
    let mut i: usize = 1;
    assert(body.take(0) =~= Seq::<Seq<char>>::empty());
    while i < ls.len()
        invariant
            1 <= i <= ls.len(),
            body == views(ls@).skip(1),
            df_views(out@) == df_rows(body.take(i - 1)),
        decreases ls.len() - i,
    {
        assert(body.take(i as int).drop_last() =~= body.take(i - 1));
        assert(body.take(i as int).last() == ls@[i as int]@);
        let ghost before = df_views(out@);
        match df_row_exec(ls[i].as_slice()) {
            Some(r) => {
                out.push(r);
                assert(df_views(out@) =~= before.push(df_row(ls@[i as int]@)->0));
            },
            None => {},
        }
        i = i + 1;
    }
    assert(body.take(ls.len() - 1) =~= body);
    out
}

/// A `df` line is listed exactly when it has five words, its mount point lies in the
/// tree outside `/sys`, `/proc`, `/dev` and `/run`, and its type is none of the virtual,
/// container or network types `tmpfs`, `devtmpfs`, `squashfs`, `overlay`, `proc`,
/// `sysfs`, `cgroup2`, `fuse*`, `nfs`, `nfs4`, `cifs`, `autofs`; so every disk
/// filesystem (ext4, btrfs, xfs, vfat, ...) mounted in the tree is listed, with the
/// line's words as its fields.
pub proof fn law_disk_filesystems_listed(l: Seq<char>)
    ensures
        ({
            let f = tokens(l);
            let shown = f.len() >= 5 && starts_with(f[0], "/"@) && !starts_with(f[0], "/sys"@)
                && !starts_with(f[0], "/proc"@) && !starts_with(f[0], "/dev"@) && !starts_with(f[0], "/run"@)
                && !(f[1] == "tmpfs"@ || f[1] == "devtmpfs"@ || f[1] == "squashfs"@ || f[1] == "overlay"@
                || f[1] == "proc"@ || f[1] == "sysfs"@ || f[1] == "cgroup2"@ || starts_with(f[1], "fuse"@)
                || f[1] == "nfs"@ || f[1] == "nfs4"@ || f[1] == "cifs"@ || f[1] == "autofs"@);
            &&& (df_row(l) is Some <==> shown)
            &&& shown ==> df_row(l) == Some(
                DfRowView { mountpoint: f[0], fstype: f[1], size_text: f[2], used_text: f[3], avail_text: f[4] },
            )
        }),
{
}

} // verus!
