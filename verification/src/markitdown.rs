//! "To Markdown" conversion: which Python interpreters to try, the command
//! lines that probe them and convert, and how the converter's output becomes a
//! result.
use vstd::prelude::*;

use crate::paths::{join_path, joined_path_under, joins_plainly, lemma_joined_path_push, lemma_joins_plainly};
use crate::text::{chars_of, string_of, trim, trim_chars, trimmed};

verus! {

/// Hard cap, in seconds, on a single conversion.
pub const CONVERT_TIMEOUT_SECS: u64 = 120;

/// A Python interpreter to run, with the arguments that come before the
/// script's own.
#[derive(Debug, Clone)]
pub struct Interpreter {
    pub program: String,
    pub leading_args: Vec<String>,
}

/// The strings held by a sequence of strings.
pub open spec fn texts(v: Seq<String>) -> Seq<Seq<char>> {
    v.map_values(|s: String| s@)
}

/// The path components from the per-user local data directory to the Store
/// Python 3.13 interpreter.
pub open spec fn store_python_components() -> Seq<Seq<char>> {
    seq![
        "Microsoft"@,
        "WindowsApps"@,
        "PythonSoftwareFoundation.Python.3.13_qbz5n2kfra8p0"@,
        "python.exe"@,
    ]
}

fn interpreter(program: String, leading: &[&str]) -> (i: Interpreter)
    ensures
        i.program@ == program@,
        i.leading_args@.len() == leading@.len(),
        forall|k: int| 0 <= k < leading@.len() ==> #[trigger] i.leading_args@[k]@ == leading@[k]@,
{
    let mut args: Vec<String> = Vec::new();
    let mut k: usize = 0;
    while k < leading.len()
        invariant
            k <= leading.len(),
            args@.len() == k,
            forall|j: int| 0 <= j < k ==> #[trigger] args@[j]@ == leading@[j]@,
        decreases leading.len() - k,
    {
        args.push(leading[k].to_owned());
        k += 1;
    }
    Interpreter { program, leading_args: args }
}

/// The Store Python 3.13 interpreter under the local data directory.
pub fn store_python_path(local_data_dir: &str) -> (r: String)
    ensures
        joins_plainly(local_data_dir@) ==> joined_path_under(
            r@,
            local_data_dir@,
            store_python_components(),
        ),
{
    proof {
        reveal_strlit("Microsoft");
        reveal_strlit("WindowsApps");
        reveal_strlit("PythonSoftwareFoundation.Python.3.13_qbz5n2kfra8p0");
        reveal_strlit("python.exe");
    }
    let a = join_path(local_data_dir, "Microsoft");
    let b = join_path(a.as_str(), "WindowsApps");
    let c = join_path(b.as_str(), "PythonSoftwareFoundation.Python.3.13_qbz5n2kfra8p0");
    let d = join_path(c.as_str(), "python.exe");
    proof {
        let dir = local_data_dir@;
        if joins_plainly(dir) {
            lemma_joins_plainly(a@, dir, "Microsoft"@);
            lemma_joins_plainly(b@, a@, "WindowsApps"@);
            lemma_joins_plainly(c@, b@, "PythonSoftwareFoundation.Python.3.13_qbz5n2kfra8p0"@);
            let p0 = Seq::<Seq<char>>::empty();
            let p1 = p0.push("Microsoft"@);
            let p2 = p1.push("WindowsApps"@);
            let p3 = p2.push("PythonSoftwareFoundation.Python.3.13_qbz5n2kfra8p0"@);
            let p4 = p3.push("python.exe"@);
            assert(joined_path_under(dir, dir, p0));
            lemma_joined_path_push(a@, dir, dir, p0, "Microsoft"@);
            lemma_joined_path_push(b@, a@, dir, p1, "WindowsApps"@);
            lemma_joined_path_push(
                c@,
                b@,
                dir,
                p2,
                "PythonSoftwareFoundation.Python.3.13_qbz5n2kfra8p0"@,
            );
            lemma_joined_path_push(d@, c@, dir, p3, "python.exe"@);
            assert(p4 =~= store_python_components());
        }
    }
    d
}

/// Candidate interpreters to probe, in priority order: the `py` launcher
/// asking for 3.13, the Store Python 3.13 under the per-user local data
/// directory (when that directory is known), and plain `python` last.
pub fn interpreter_candidates(local_data_dir: Option<&str>) -> (r: Vec<Interpreter>)
    ensures
        r.len() == if local_data_dir is Some {
            3int
        } else {
            2int
        },
        r[0].program@ == "py"@,
        texts(r[0].leading_args@) == seq!["-3.13"@],
        local_data_dir matches Some(dir) ==> (joins_plainly(dir@) ==> joined_path_under(
            r[1].program@,
            dir@,
            store_python_components(),
        )) && r[1].leading_args@.len() == 0,
        r[r.len() - 1].program@ == "python"@,
        r[r.len() - 1].leading_args@.len() == 0,
{
    let mut candidates: Vec<Interpreter> = Vec::new();
    let py = interpreter(String::from_str("py"), &["-3.13"]);
    assert(texts(py.leading_args@) =~= seq!["-3.13"@]);
    candidates.push(py);
    match local_data_dir {
        Some(dir) => {
            let path = store_python_path(dir);
            candidates.push(Interpreter { program: path, leading_args: Vec::new() });
        },
        None => {},
    }
    candidates.push(Interpreter { program: String::from_str("python"), leading_args: Vec::new() });
    candidates
}

fn with_args(interp: &Interpreter, extra: &[&str]) -> (r: Vec<String>)
    ensures
        texts(r@) == texts(interp.leading_args@) + extra@.map_values(|s: &str| s@),
{
    let mut args: Vec<String> = Vec::new();
    let mut k: usize = 0;
    while k < interp.leading_args.len()
        invariant
            k <= interp.leading_args.len(),
            texts(args@) == texts(interp.leading_args@).take(k as int),
        decreases interp.leading_args.len() - k,
    {
        let a = interp.leading_args[k].clone();
        let ghost before = args@;
        args.push(a);
        assert(args@ == before.push(a));
        assert(texts(args@) =~= texts(before).push(a@));
        assert(texts(interp.leading_args@)[k as int] == a@);
        assert(texts(args@) =~= texts(interp.leading_args@).take(k + 1));
        k += 1;
    }
    assert(texts(interp.leading_args@).take(k as int) =~= texts(interp.leading_args@));
    let mut j: usize = 0;
    while j < extra.len()
        invariant
            j <= extra.len(),
            texts(args@) == texts(interp.leading_args@) + extra@.map_values(|s: &str| s@).take(
                j as int,
            ),
        decreases extra.len() - j,
    {
        let e = extra[j].to_owned();
        let ghost before = args@;
        args.push(e);
        assert(args@ == before.push(e));
        assert(texts(args@) =~= texts(before).push(e@));
        assert(extra@.map_values(|s: &str| s@)[j as int] == e@);
        assert(texts(args@) =~= texts(interp.leading_args@) + extra@.map_values(|s: &str| s@).take(
            j + 1,
        ));
        j += 1;
    }
    assert(extra@.map_values(|s: &str| s@).take(extra.len() as int) =~= extra@.map_values(
        |s: &str| s@,
    ));
    args
}

/// The arguments that test whether `interp` can import MarkItDown.
pub fn probe_args(interp: &Interpreter) -> (r: Vec<String>)
    ensures
        texts(r@) == texts(interp.leading_args@) + seq!["-c"@, "import markitdown"@],
{
    let r = with_args(interp, &["-c", "import markitdown"]);
    assert(seq!["-c", "import markitdown"].map_values(|s: &str| s@) =~= seq![
        "-c"@,
        "import markitdown"@,
    ]);
    r
}

/// The arguments that convert `input` with MarkItDown under `interp`.
pub fn convert_args(interp: &Interpreter, input: &str) -> (r: Vec<String>)
    ensures
        texts(r@) == texts(interp.leading_args@) + seq!["-m"@, "markitdown"@, input@],
{
    let r = with_args(interp, &["-m", "markitdown", input]);
    assert(seq!["-m", "markitdown", input].map_values(|s: &str| s@) =~= seq![
        "-m"@,
        "markitdown"@,
        input@,
    ]);
    r
}

/// The message when no candidate interpreter can import MarkItDown.
pub fn missing_interpreter_message() -> (r: String)
    ensures
        r@ == "Could not find a Python interpreter with MarkItDown installed. Install it with: py -3.13 -m pip install markitdown[all]"@,
{
    String::from_str(
        "Could not find a Python interpreter with MarkItDown installed. Install it with: py -3.13 -m pip install markitdown[all]",
    )
}

/// The message for a conversion that ran past the time limit.
pub fn timeout_message() -> (r: String)
    ensures
        r@ == "Conversion timed out after 120s."@,
{
    String::from_str("Conversion timed out after 120s.")
}

/// The file or URL to convert: the input without surrounding whitespace, or an
/// error when nothing is left.
pub fn conversion_input(input: &str) -> (r: Result<String, String>)
    ensures
        r is Ok <==> trim(input@).len() > 0,
        r matches Ok(s) ==> s@ == trim(input@),
        r matches Err(e) ==> e@ == "No file or URL provided."@,
{
    let t = trimmed(input);
    if t.unicode_len() == 0 {
        Err(String::from_str("No file or URL provided."))
    } else {
        Ok(t)
    }
}

/// What `String::from_utf8_lossy` makes of `bytes`: their UTF-8 decoding, with
/// each invalid sequence replaced by U+FFFD.
pub uninterp spec fn utf8_lossy(bytes: Seq<u8>) -> Seq<char>;

/// Calls `String::from_utf8_lossy`. Valid UTF-8 is decoded as it stands;
/// invalid sequences become U+FFFD, a rule the contract leaves to the name
/// `utf8_lossy` rather than spelling out.
#[verifier::external_body]
fn decode_lossy(bytes: &[u8]) -> (r: String)
    ensures
        r@ == utf8_lossy(bytes@),
        vstd::utf8::valid_utf8(bytes@) ==> r@ == vstd::utf8::decode_utf8(bytes@),
{
    String::from_utf8_lossy(bytes).into_owned()
}

/// The result of a finished MarkItDown run: its standard output on success;
/// otherwise its standard error without surrounding whitespace, or a fixed
/// message when that is blank.
pub fn conversion_outcome(success: bool, stdout: &[u8], stderr: &[u8]) -> (r: Result<
    String,
    String,
>)
    ensures
        r is Ok <==> success,
        r matches Ok(s) ==> s@ == utf8_lossy(stdout@),
        r matches Err(e) ==> e@ == (if trim(utf8_lossy(stderr@)).len() == 0 {
            "MarkItDown failed with no error output."@
        } else {
            trim(utf8_lossy(stderr@))
        }),
{
    if success {
        outcome_from_text(true, decode_lossy(stdout), "")
    } else {
        let err = decode_lossy(stderr);
        outcome_from_text(false, String::new(), err.as_str())
    }
}

/// The result of a finished MarkItDown run, given its decoded standard output
/// and standard error: the output on success; otherwise the error text without
/// surrounding whitespace, or a fixed message when that is blank.
pub fn outcome_from_text(success: bool, stdout: String, stderr: &str) -> (r: Result<
    String,
    String,
>)
    ensures
        r is Ok <==> success,
        r matches Ok(s) ==> s@ == stdout@,
        r matches Err(e) ==> e@ == (if trim(stderr@).len() == 0 {
            "MarkItDown failed with no error output."@
        } else {
            trim(stderr@)
        }),
{
    if success {
        Ok(stdout)
    } else {
        let chars = chars_of(stderr);
        let message = trim_chars(chars.as_slice());
        if message.len() == 0 {
            Err(String::from_str("MarkItDown failed with no error output."))
        } else {
            Err(string_of(message.as_slice()))
        }
    }
}

} // verus!
