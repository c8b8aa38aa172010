//! System identity shown in the header: product, motherboard, BIOS and the date the
//! system was installed, from the DMI files of `/sys` and the output of `stat`.
use vstd::prelude::*;
use crate::text::{
    append_chars, chars_eq_str, chars_of, contains, contains_str, lowercase, lowercase_chars,
    string_of, token_nth, token_nth_chars, trim, trim_chars,
};

verus! {

pub open spec fn opt_view(o: Option<&str>) -> Option<Seq<char>> {
    match o {
        Some(s) => Some(s@),
        None => None,
    }
}

/// A DMI file's text, trimmed; empty when it could not be read.
pub open spec fn dmi_text(o: Option<Seq<char>>) -> Seq<char> {
    match o {
        Some(s) => trim(s),
        None => Seq::empty(),
    }
}

fn dmi_text_exec(o: Option<&str>) -> (r: Vec<char>)
    ensures
        r@ == dmi_text(opt_view(o)),
{
    match o {
        Some(s) => {
            let c = chars_of(s);
            trim_chars(c.as_slice())
        },
        None => Vec::new(),
    }
}

/// A placeholder that firmware vendors leave in DMI fields.
pub open spec fn generic_dmi(s: Seq<char>) -> bool {
    let l = lowercase(s);
    s.len() == 0 || contains(l, "to be filled"@) || l == "default string"@ || l
        == "system product name"@ || l == "none"@
}

fn generic_dmi_exec(s: &[char]) -> (r: bool)
    ensures
        r == generic_dmi(s@),
{
    let l = lowercase_chars(s);
    let l = l.as_slice();
    s.len() == 0 || contains_str(l, "to be filled") || chars_eq_str(l, "default string")
        || chars_eq_str(l, "system product name") || chars_eq_str(l, "none")
}

/// The motherboard: vendor and board name, whichever of them is known, or
/// `"Desconhecida"`.
pub open spec fn motherboard_spec(vendor: Seq<char>, name: Seq<char>) -> Seq<char> {
    if vendor.len() > 0 && name.len() > 0 {
        vendor + seq![' '] + name
    } else if name.len() > 0 {
        name
    } else if vendor.len() > 0 {
        vendor
    } else {
        "Desconhecida"@
    }
}

pub fn motherboard_from(board_vendor: Option<&str>, board_name: Option<&str>) -> (r: String)
    ensures
        r@ == motherboard_spec(dmi_text(opt_view(board_vendor)), dmi_text(opt_view(board_name))),
{
    let mut v = dmi_text_exec(board_vendor);
    let n = dmi_text_exec(board_name);
    if v.len() > 0 && n.len() > 0 {
        v.push(' ');
        append_chars(&mut v, n.as_slice());
        string_of(v.as_slice())
    } else if n.len() > 0 {
        string_of(n.as_slice())
    } else if v.len() > 0 {
        string_of(v.as_slice())
    } else {
        "Desconhecida".to_string()
    }
}

/// The assembled system's product: name and version from DMI, leaving out vendor
/// placeholders; the motherboard when the name is missing.
pub open spec fn product_spec(name: Seq<char>, version: Seq<char>, motherboard: Seq<char>) -> Seq<char> {
    let n = if generic_dmi(name) {
        Seq::empty()
    } else {
        name
    };
    let v = if generic_dmi(version) {
        Seq::empty()
    } else {
        version
    };
    if n.len() > 0 && v.len() > 0 {
        n + " ("@ + v + ")"@
    } else if n.len() > 0 {
        n
    } else {
        motherboard
    }
}

pub fn product_name_from(
    product_name: Option<&str>,
    product_version: Option<&str>,
    motherboard: &str,
) -> (r: String)
    ensures
        r@ == product_spec(
            dmi_text(opt_view(product_name)),
            dmi_text(opt_view(product_version)),
            motherboard@,
        ),
{
    let name = dmi_text_exec(product_name);
    let version = dmi_text_exec(product_version);
    let n = if generic_dmi_exec(name.as_slice()) {
        Vec::new()
    } else {
        name
    };
    let v = if generic_dmi_exec(version.as_slice()) {
        Vec::new()
    } else {
        version
    };
    if n.len() > 0 && v.len() > 0 {
        let mut r = n;
        let open = chars_of(" (");
        let close = chars_of(")");
        append_chars(&mut r, open.as_slice());
        append_chars(&mut r, v.as_slice());
        append_chars(&mut r, close.as_slice());
        string_of(r.as_slice())
    } else if n.len() > 0 {
        string_of(n.as_slice())
    } else {
        motherboard.to_string()
    }
}

/// BIOS vendor and date, joined by a space and trimmed.
pub open spec fn bios_spec(vendor: Seq<char>, date: Seq<char>) -> Seq<char> {
    trim(vendor + seq![' '] + date)
}

pub fn bios_from(bios_vendor: Option<&str>, bios_date: Option<&str>) -> (r: String)
    ensures
        r@ == bios_spec(dmi_text(opt_view(bios_vendor)), dmi_text(opt_view(bios_date))),
{
    let mut v = dmi_text_exec(bios_vendor);
    let d = dmi_text_exec(bios_date);
    let ghost v0 = v@;
    v.push(' ');
    append_chars(&mut v, d.as_slice());
    assert(v@ =~= v0 + seq![' '] + d@);
    let t = trim_chars(v.as_slice());
    string_of(t.as_slice())
}

/// The output of a `stat` run that succeeded, trimmed, when it says something: not
/// empty, `"0"` or `"-"`.
pub open spec fn stat_text(out: Option<Seq<char>>) -> Option<Seq<char>> {
    match out {
        Some(o) => {
            let t = trim(o);
            if t.len() == 0 || t == "0"@ || t == "-"@ {
                None
            } else {
                Some(t)
            }
        },
        None => None,
    }
}

/// The installation date: the date word of the root directory's birth time when it
/// is a date (holds a `'-'`), else the date word of `/etc/hostname`'s modification
/// time, else `"—"`.
pub open spec fn install_date_spec(birth: Option<Seq<char>>, modified: Option<Seq<char>>) -> Seq<char> {
    let fallback = match stat_text(modified) {
        Some(m) => match token_nth(m, 0) {
            Some(d) => d,
            None => "\u{2014}"@,
        },
        None => "\u{2014}"@,
    };
    match stat_text(birth) {
        Some(b) => match token_nth(b, 0) {
            Some(d) => if contains(d, "-"@) {
                d
            } else {
                fallback
            },
            None => fallback,
        },
        None => fallback,
    }
}

fn stat_text_exec(out: Option<&str>) -> (r: Option<Vec<char>>)
    ensures
        r matches Some(t) ==> stat_text(opt_view(out)) == Some(t@),
        r is None ==> stat_text(opt_view(out)) is None,
{
    match out {
        Some(o) => {
            let c = chars_of(o);
            let t = trim_chars(c.as_slice());
            if t.len() == 0 || chars_eq_str(t.as_slice(), "0") || chars_eq_str(t.as_slice(), "-") {
                None
            } else {
                Some(t)
            }
        },
        None => None,
    }
}

/// The installation date from the outputs of `stat -c %w /` and
/// `stat -c %y /etc/hostname` (`None` for a run that failed).
pub fn install_date_from(birth: Option<&str>, modified: Option<&str>) -> (r: String)
    ensures
        r@ == install_date_spec(opt_view(birth), opt_view(modified)),
{
    let fallback: String = match stat_text_exec(modified) {
        Some(m) => match token_nth_chars(m.as_slice(), 0) {
            Some(d) => string_of(d.as_slice()),
            None => "\u{2014}".to_string(),
        },
        None => "\u{2014}".to_string(),
    };
    match stat_text_exec(birth) {
        Some(b) => match token_nth_chars(b.as_slice(), 0) {
            Some(d) => {
                if contains_str(d.as_slice(), "-") {
                    string_of(d.as_slice())
                } else {
                    fallback
                }
            },
            None => fallback,
        },
        None => fallback,
    }
}

} // verus!
