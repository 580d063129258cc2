//! "Newest launch wins": the commands that retire older instances and the
//! startup entries left by the app's former name.
use vstd::prelude::*;

use crate::markitdown::texts;
use crate::paths::{
    has_verbatim_prefix, join_path, joined_path_under, joins_plainly, lemma_joined_path_push,
    lemma_joins_plainly, path_joined,
};
use crate::text::string_of;

verus! {

/// The decimal digits of `n`, as integers print.
pub open spec fn decimal(n: nat) -> Seq<char>
    decreases n,
{
    let digit = seq!['0', '1', '2', '3', '4', '5', '6', '7', '8', '9'][(n % 10) as int];
    if n < 10 {
        seq![digit]
    } else {
        decimal(n / 10) + seq![digit]
    }
}

/// The number that the decimal digits `d` stand for, most significant first.
pub open spec fn digits_value(d: Seq<char>) -> int
    decreases d.len(),
{
    if d.len() == 0 {
        0
    } else {
        10 * digits_value(d.drop_last()) + (d.last() as int - '0' as int)
    }
}

/// Every character is one of `0` to `9`.
pub open spec fn all_digits(d: Seq<char>) -> bool {
    forall|i: int| 0 <= i < d.len() ==> '0' <= #[trigger] d[i] <= '9'
}

/// The decimal text of `n` reads back as `n`: it is made of digits only, it
/// has no leading zero (`0` itself is the one digit `0`), and the digits,
/// read most significant first, give `n`.
pub proof fn lemma_decimal_reads_back(n: nat)
    ensures
        decimal(n).len() > 0,
        all_digits(decimal(n)),
        decimal(n)[0] == '0' ==> n == 0 && decimal(n).len() == 1,
        digits_value(decimal(n)) == n,
    decreases n,
{
    let k = n % 10;
    let digit = seq!['0', '1', '2', '3', '4', '5', '6', '7', '8', '9'][k as int];
    assert(digit as int - '0' as int == k) by {
        if k == 0 {} else if k == 1 {} else if k == 2 {} else if k == 3 {} else if k == 4 {}
        else if k == 5 {} else if k == 6 {} else if k == 7 {} else if k == 8 {} else {}
    }
    assert('0' <= digit <= '9') by {
        if k == 0 {} else if k == 1 {} else if k == 2 {} else if k == 3 {} else if k == 4 {}
        else if k == 5 {} else if k == 6 {} else if k == 7 {} else if k == 8 {} else {}
    }
    if n < 10 {
        let d = seq![digit];
        assert(d.drop_last() =~= Seq::<char>::empty());
        assert(decimal(n) == d);
        assert(digit == '0' ==> k == 0);
        assert(digits_value(Seq::<char>::empty()) == 0);
        assert(digits_value(d) == 10 * digits_value(d.drop_last()) + (d.last() as int - '0' as int));
    } else {
        let m = n / 10;
        lemma_decimal_reads_back(m);
        let d = decimal(m) + seq![digit];
        assert(decimal(n) == d);
        assert(d.drop_last() =~= decimal(m));
        assert(d[0] == decimal(m)[0]);
        assert forall|i: int| 0 <= i < d.len() implies '0' <= #[trigger] d[i] <= '9' by {
            if i < decimal(m).len() {
                assert(d[i] == decimal(m)[i]);
            }
        }
        assert(d.last() == digit);
        assert(digits_value(d) == 10 * digits_value(d.drop_last()) + (d.last() as int - '0' as int));
        assert(n == 10 * m + k);
    }
}

/// The decimal digit for `d`.
fn digit_char(d: u32) -> (c: char)
    requires
        d < 10,
    ensures
        c == seq!['0', '1', '2', '3', '4', '5', '6', '7', '8', '9'][d as int],
{
    match d {
        0 => '0',
        1 => '1',
        2 => '2',
        3 => '3',
        4 => '4',
        5 => '5',
        6 => '6',
        7 => '7',
        8 => '8',
        _ => '9',
    }
}

/// Appends the decimal digits of `n` to `v`.
fn push_decimal(n: u32, v: &mut Vec<char>)
    ensures
        final(v)@ == old(v)@ + decimal(n as nat),
    decreases n,
{
    let ghost start = v@;
    if n >= 10 {
        push_decimal(n / 10, v);
    }
    let d = digit_char(n % 10);
    v.push(d);
    proof {
        if n >= 10 {
            assert(v@ =~= start + (decimal((n / 10) as nat) + seq![d]));
        } else {
            assert(v@ =~= start + seq![d]);
        }
    }
}

/// `n` written in decimal, as `u32::to_string` writes it.
fn decimal_string(n: u32) -> (r: String)
    ensures
        r@ == decimal(n as nat),
{
    let mut v: Vec<char> = Vec::new();
    push_decimal(n, &mut v);
    assert(v@ =~= decimal(n as nat));
    string_of(v.as_slice())
}

/// The executable names whose processes are ended at launch: this
/// executable's file name (`robin.exe` when it cannot be found) and the legacy
/// `typr.exe`.
pub fn instance_image_names(current_exe_name: Option<&str>) -> (r: Vec<String>)
    ensures
        r.len() == 2,
        r[0]@ == (match current_exe_name {
            Some(n) => n@,
            None => "robin.exe"@,
        }),
        r[1]@ == "typr.exe"@,
{
    let mut names: Vec<String> = Vec::new();
    match current_exe_name {
        Some(n) => names.push(n.to_owned()),
        None => names.push(String::from_str("robin.exe")),
    }
    names.push(String::from_str("typr.exe"));
    names
}

/// The `taskkill` arguments that force-end every process named `image` except
/// the one with id `current_pid`.
pub fn taskkill_args(image: &str, current_pid: u32) -> (r: Vec<String>)
    ensures
        texts(r@) == seq!["/F"@, "/IM"@, image@, "/FI"@, "PID ne "@ + decimal(current_pid as nat)],
{
    let mut filter = String::from_str("PID ne ");
    let pid = decimal_string(current_pid);
    filter.append(pid.as_str());
    let mut args: Vec<String> = Vec::new();
    args.push(String::from_str("/F"));
    args.push(String::from_str("/IM"));
    args.push(image.to_owned());
    args.push(String::from_str("/FI"));
    args.push(filter);
    assert(texts(args@) =~= seq!["/F"@, "/IM"@, image@, "/FI"@, "PID ne "@ + decimal(
        current_pid as nat,
    )]);
    args
}

/// The registry key that lists programs run at sign-in.
pub open spec fn run_key_text() -> Seq<char> {
    "HKCU\\Software\\Microsoft\\Windows\\CurrentVersion\\Run"@
}

/// The `reg` arguments that delete each startup value the app used under its
/// former name.
pub fn legacy_autostart_reg_args() -> (r: Vec<Vec<String>>)
    ensures
        r.len() == 4,
        texts(r[0]@) == seq!["delete"@, run_key_text(), "/v"@, "Typr"@, "/f"@],
        texts(r[1]@) == seq!["delete"@, run_key_text(), "/v"@, "typr"@, "/f"@],
        texts(r[2]@) == seq!["delete"@, run_key_text(), "/v"@, "typr.exe"@, "/f"@],
        texts(r[3]@) == seq!["delete"@, run_key_text(), "/v"@, "com.typr.app"@, "/f"@],
{
    let mut r: Vec<Vec<String>> = Vec::new();
    r.push(reg_delete_args("Typr"));
    r.push(reg_delete_args("typr"));
    r.push(reg_delete_args("typr.exe"));
    r.push(reg_delete_args("com.typr.app"));
    r
}

fn reg_delete_args(value_name: &str) -> (r: Vec<String>)
    ensures
        texts(r@) == seq!["delete"@, run_key_text(), "/v"@, value_name@, "/f"@],
{
    let mut args: Vec<String> = Vec::new();
    args.push(String::from_str("delete"));
    args.push(String::from_str("HKCU\\Software\\Microsoft\\Windows\\CurrentVersion\\Run"));
    args.push(String::from_str("/v"));
    args.push(value_name.to_owned());
    args.push(String::from_str("/f"));
    assert(texts(args@) =~= seq!["delete"@, run_key_text(), "/v"@, value_name@, "/f"@]);
    args
}

/// The components from the roaming application-data directory to the
/// per-user Startup folder.
pub open spec fn startup_components() -> Seq<Seq<char>> {
    seq!["Microsoft"@, "Windows"@, "Start Menu"@, "Programs"@, "Startup"@]
}

/// The per-user Startup folder under the roaming application-data directory.
pub fn startup_dir(appdata: &str) -> (r: String)
    ensures
        joins_plainly(appdata@) ==> joined_path_under(r@, appdata@, startup_components()),
{
    proof {
        reveal_strlit("Microsoft");
        reveal_strlit("Windows");
        reveal_strlit("Start Menu");
        reveal_strlit("Programs");
        reveal_strlit("Startup");
    }
    let a = join_path(appdata, "Microsoft");
    let b = join_path(a.as_str(), "Windows");
    let c = join_path(b.as_str(), "Start Menu");
    let d = join_path(c.as_str(), "Programs");
    let e = join_path(d.as_str(), "Startup");
    proof {
        let dir = appdata@;
        if joins_plainly(dir) {
            lemma_joins_plainly(a@, dir, "Microsoft"@);
            lemma_joins_plainly(b@, a@, "Windows"@);
            lemma_joins_plainly(c@, b@, "Start Menu"@);
            lemma_joins_plainly(d@, c@, "Programs"@);
            let p0 = Seq::<Seq<char>>::empty();
            let p1 = p0.push("Microsoft"@);
            let p2 = p1.push("Windows"@);
            let p3 = p2.push("Start Menu"@);
            let p4 = p3.push("Programs"@);
            let p5 = p4.push("Startup"@);
            assert(joined_path_under(dir, dir, p0));
            lemma_joined_path_push(a@, dir, dir, p0, "Microsoft"@);
            lemma_joined_path_push(b@, a@, dir, p1, "Windows"@);
            lemma_joined_path_push(c@, b@, dir, p2, "Start Menu"@);
            lemma_joined_path_push(d@, c@, dir, p3, "Programs"@);
            lemma_joined_path_push(e@, d@, dir, p4, "Startup"@);
            assert(p5 =~= startup_components());
        }
    }
    e
}

/// The startup shortcuts and scripts left by the app's former name, in the
/// Startup folder `startup`.
pub fn legacy_startup_files(startup: &str) -> (r: Vec<String>)
    ensures
        r.len() == 3,
        !has_verbatim_prefix(startup@) ==> path_joined(r[0]@, startup@, "Typr.lnk"@),
        !has_verbatim_prefix(startup@) ==> path_joined(r[1]@, startup@, "typr.lnk"@),
        !has_verbatim_prefix(startup@) ==> path_joined(r[2]@, startup@, "launch-typr.bat"@),
{
    proof {
        reveal_strlit("Typr.lnk");
        reveal_strlit("typr.lnk");
        reveal_strlit("launch-typr.bat");
    }
    let mut r: Vec<String> = Vec::new();
    r.push(join_path(startup, "Typr.lnk"));
    r.push(join_path(startup, "typr.lnk"));
    r.push(join_path(startup, "launch-typr.bat"));
    r
}

} // verus!
