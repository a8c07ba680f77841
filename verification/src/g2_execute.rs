//! Executing the native build chain and holding its results to real,
//! independently observed evidence: `nm` must show each expected symbol
//! defined (or referenced but undefined), and the linked executable must
//! really produce the fixture's declared result (exit 0, stdout `9\n`,
//! empty stderr). The compilers and tools themselves run outside this
//! library; this module reads what they printed and decides.

use vstd::prelude::*;

use crate::resource_scheduler::strings_view;
use crate::text::{
    debug_quoted, debug_str, decimal, lines_of, owned, push_decimal, push_str, split_lines, split_ws, ws_tokens,
};
use crate::toolchain_resolve::{toolchain_error_text, ToolchainResolutionError};

verus! {

/// Why executing the native chain failed.
#[derive(Debug, Clone, PartialEq, Eq)]
pub enum G2Error {
    Io(String),
    ToolFailed { program: String, detail: String },
    /// The file was produced, but `nm` does not show the symbol defined.
    ExpectedSymbolNotDefined { path: String, symbol: String },
    /// The object was produced, but `nm` does not show the symbol as an
    /// undefined reference.
    ExpectedSymbolNotReferenced { path: String, symbol: String },
    Toolchain(ToolchainResolutionError),
    /// The linked executable ran, but not with the declared result.
    UnexpectedExecutionResult { path: String, exit_code: Option<i32>, stdout: String, stderr: String },
    /// An obligation could not be discharged.
    Discharge(String),
}

/// How `Debug` shows an optional exit code.
pub open spec fn debug_exit_code(c: Option<i32>) -> Seq<char> {
    match c {
        Some(n) => "Some("@ + signed_decimal(n as int) + ")"@,
        None => "None"@,
    }
}

/// The human-readable text of an execution error.
pub open spec fn g2_error_text(e: G2Error) -> Seq<char> {
    match e {
        G2Error::Io(d) => "G2 execution I/O error: "@ + d@,
        G2Error::ToolFailed { program, detail } => "G2 execution: '"@ + program@ + "' failed: "@ + detail@,
        G2Error::ExpectedSymbolNotDefined { path, symbol } => "G2 execution: real file '"@ + path@
            + "' does not define expected symbol '"@ + symbol@ + "'"@,
        G2Error::ExpectedSymbolNotReferenced { path, symbol } => "G2 execution: real file '"@ + path@
            + "' does not reference expected undefined symbol '"@ + symbol@ + "'"@,
        G2Error::Toolchain(t) => "G2 execution: toolchain resolution: "@ + toolchain_error_text(t),
        G2Error::UnexpectedExecutionResult { path, exit_code, stdout, stderr } => "G2 execution: running real executable '"@
            + path@ + "' gave exit="@ + debug_exit_code(exit_code) + " stdout="@ + debug_str(stdout@) + " stderr="@
            + debug_str(stderr@) + ", not the fixture's declared expected result"@,
        G2Error::Discharge(v) => "G2 execution: "@ + v@,
    }
}

impl G2Error {
    /// The error's human-readable text.
    pub fn message(&self) -> (r: String)
        ensures
            r@ == g2_error_text(*self),
    {
        match self {
            G2Error::Io(d) => {
                let mut m = owned("G2 execution I/O error: ");
                push_str(&mut m, d.as_str());
                m
            },
            G2Error::ToolFailed { program, detail } => {
                let mut m = owned("G2 execution: '");
                push_str(&mut m, program.as_str());
                push_str(&mut m, "' failed: ");
                push_str(&mut m, detail.as_str());
                m
            },
            G2Error::ExpectedSymbolNotDefined { path, symbol } => {
                let mut m = owned("G2 execution: real file '");
                push_str(&mut m, path.as_str());
                push_str(&mut m, "' does not define expected symbol '");
                push_str(&mut m, symbol.as_str());
                push_str(&mut m, "'");
                m
            },
            G2Error::ExpectedSymbolNotReferenced { path, symbol } => {
                let mut m = owned("G2 execution: real file '");
                push_str(&mut m, path.as_str());
                push_str(&mut m, "' does not reference expected undefined symbol '");
                push_str(&mut m, symbol.as_str());
                push_str(&mut m, "'");
                m
            },
            G2Error::Toolchain(t) => {
                let mut m = owned("G2 execution: toolchain resolution: ");
                let inner = t.message();
                push_str(&mut m, inner.as_str());
                m
            },
            G2Error::UnexpectedExecutionResult { path, exit_code, stdout, stderr } => {
                let mut m = owned("G2 execution: running real executable '");
                push_str(&mut m, path.as_str());
                push_str(&mut m, "' gave exit=");
                match exit_code {
                    Some(n) => {
                        push_str(&mut m, "Some(");
                        push_signed_decimal(&mut m, *n);
                        push_str(&mut m, ")");
                    },
                    None => push_str(&mut m, "None"),
                }
                push_str(&mut m, " stdout=");
                let q = debug_quoted(stdout.as_str());
                push_str(&mut m, q.as_str());
                push_str(&mut m, " stderr=");
                let q2 = debug_quoted(stderr.as_str());
                push_str(&mut m, q2.as_str());
                push_str(&mut m, ", not the fixture's declared expected result");
                m
            },
            G2Error::Discharge(v) => {
                let mut m = owned("G2 execution: ");
                push_str(&mut m, v.as_str());
                m
            },
        }
    }
}

// ---------------------------------------------------------------------
// Reading `nm -g`
// ---------------------------------------------------------------------

/// `name` is `symbol` or `symbol` with a leading underscore.
pub open spec fn names_symbol(name: Seq<char>, symbol: Seq<char>) -> bool {
    name == symbol || name == "_"@ + symbol
}

/// An `nm` line `<address> <type> <name>` defines `symbol` in a text
/// section (`T` or `t`).
pub open spec fn line_defines(line: Seq<char>, symbol: Seq<char>) -> bool {
    let t = ws_tokens(line);
    t.len() >= 3 && (t[1] == "T"@ || t[1] == "t"@) && names_symbol(t[2], symbol)
}

/// An `nm` line `U <name>` references `symbol` without defining it.
pub open spec fn line_references(line: Seq<char>, symbol: Seq<char>) -> bool {
    let t = ws_tokens(line);
    t.len() >= 2 && t[0] == "U"@ && names_symbol(t[1], symbol)
}

pub open spec fn nm_defines(output: Seq<char>, symbol: Seq<char>) -> bool {
    exists|i: int| 0 <= i < lines_of(output).len() && line_defines(#[trigger] lines_of(output)[i], symbol)
}

pub open spec fn nm_references(output: Seq<char>, symbol: Seq<char>) -> bool {
    exists|i: int| 0 <= i < lines_of(output).len() && line_references(#[trigger] lines_of(output)[i], symbol)
}

fn is_symbol_name(name: &String, symbol: &str) -> (r: bool)
    ensures
        r == names_symbol(name@, symbol@),
{
    let mut u = owned("_");
    push_str(&mut u, symbol);
    crate::text::str_eq(name.as_str(), symbol) || *name == u
}

/// Whether `nm -g` output shows `symbol` (or `_symbol`) defined in a text
/// section.
pub fn nm_shows_defined(nm_output: &str, symbol: &str) -> (r: bool)
    ensures
        r == nm_defines(nm_output@, symbol@),
{
    let lines = split_lines(nm_output);
    let ghost ls = lines_of(nm_output@);
    let mut i: usize = 0;
    while i < lines.len()
        invariant
            strings_view(lines@) == ls,
            ls == lines_of(nm_output@),
            i <= ls.len(),
            forall|j: int| 0 <= j < i ==> !line_defines(#[trigger] ls[j], symbol@),
        decreases ls.len() - i,
    {
        proof {
            assert(ls[i as int] == lines@[i as int]@);
        }
        let t = split_ws(lines[i].as_str());
        let ghost tv = strings_view(t@);
        if t.len() >= 3 {
            proof {
                assert(tv[1] == t@[1]@ && tv[2] == t@[2]@);
            }
            let kind_ok = crate::text::str_eq(t[1].as_str(), "T") || crate::text::str_eq(t[1].as_str(), "t");
            if kind_ok && is_symbol_name(&t[2], symbol) {
                return true;
            }
        }
        i = i + 1;
    }
    false
}

/// Whether `nm -g` output shows `symbol` (or `_symbol`) as an undefined
/// reference.
pub fn nm_shows_referenced(nm_output: &str, symbol: &str) -> (r: bool)
    ensures
        r == nm_references(nm_output@, symbol@),
{
    let lines = split_lines(nm_output);
    let ghost ls = lines_of(nm_output@);
    let mut i: usize = 0;
    while i < lines.len()
        invariant
            strings_view(lines@) == ls,
            ls == lines_of(nm_output@),
            i <= ls.len(),
            forall|j: int| 0 <= j < i ==> !line_references(#[trigger] ls[j], symbol@),
        decreases ls.len() - i,
    {
        proof {
            assert(ls[i as int] == lines@[i as int]@);
        }
        let t = split_ws(lines[i].as_str());
        let ghost tv = strings_view(t@);
        if t.len() >= 2 {
            proof {
                assert(tv[0] == t@[0]@ && tv[1] == t@[1]@);
            }
            if crate::text::str_eq(t[0].as_str(), "U") && is_symbol_name(&t[1], symbol) {
                return true;
            }
        }
        i = i + 1;
    }
    false
}

/// `symbol` must be defined in the file `nm -g` described.
pub fn verify_symbol_defined(path: &str, nm_output: &str, symbol: &str) -> (r: Result<(), G2Error>)
    ensures
        nm_defines(nm_output@, symbol@) ==> r is Ok,
        !nm_defines(nm_output@, symbol@) ==> (r matches Err(G2Error::ExpectedSymbolNotDefined { path: p, symbol: s })
            && p@ == path@ && s@ == symbol@),
{
    if nm_shows_defined(nm_output, symbol) {
        Ok(())
    } else {
        Err(G2Error::ExpectedSymbolNotDefined { path: owned(path), symbol: owned(symbol) })
    }
}

/// `symbol` must be referenced, undefined, by the object `nm -g`
/// described.
pub fn verify_symbol_referenced_undefined(path: &str, nm_output: &str, symbol: &str) -> (r: Result<(), G2Error>)
    ensures
        nm_references(nm_output@, symbol@) ==> r is Ok,
        !nm_references(nm_output@, symbol@) ==> (r matches Err(G2Error::ExpectedSymbolNotReferenced { path: p, symbol: s })
            && p@ == path@ && s@ == symbol@),
{
    if nm_shows_referenced(nm_output, symbol) {
        Ok(())
    } else {
        Err(G2Error::ExpectedSymbolNotReferenced { path: owned(path), symbol: owned(symbol) })
    }
}

/// The linked executable must exit 0, print exactly `9\n`, and print
/// nothing on stderr.
pub fn check_execution_result(
    path: &str,
    exit_code: Option<i32>,
    stdout: &str,
    stderr: &str,
) -> (r: Result<(), G2Error>)
    ensures
        (exit_code == Some(0i32) && stdout@ == "9\n"@ && stderr@.len() == 0) ==> r is Ok,
        !(exit_code == Some(0i32) && stdout@ == "9\n"@ && stderr@.len() == 0) ==> (r matches Err(
            G2Error::UnexpectedExecutionResult { path: p, exit_code: e, stdout: o, stderr: s },
        ) && p@ == path@ && e == exit_code && o@ == stdout@ && s@ == stderr@),
{
    let ok = match exit_code {
        Some(c) => c == 0,
        None => false,
    } && crate::text::str_eq(stdout, "9\n") && crate::text::chars_of(stderr).len() == 0;
    if ok {
        Ok(())
    } else {
        Err(
            G2Error::UnexpectedExecutionResult {
                path: owned(path),
                exit_code,
                stdout: owned(stdout),
                stderr: owned(stderr),
            },
        )
    }
}

// ---------------------------------------------------------------------
// Evidence
// ---------------------------------------------------------------------

/// A C source really compiled and archived.
#[derive(Debug, Clone, PartialEq, Eq)]
pub struct CObjectArchiveEvidence {
    pub object_path: String,
    pub archive_path: String,
    pub archive_size_bytes: u64,
    pub archive_sha256: String,
    /// The symbol `nm` confirmed as defined in the archive.
    pub confirmed_defined_symbol: String,
}

impl CObjectArchiveEvidence {
    /// The evidence as the text an obligation is discharged with.
    pub fn as_discharge_evidence(&self) -> (r: String)
        ensures
            r@ == "real cc+ar: "@ + self.object_path@ + " -> "@ + self.archive_path@ + " ("@ + decimal(
                self.archive_size_bytes as nat,
            ) + " bytes, sha256="@ + self.archive_sha256@ + "); nm confirms '"@ + self.confirmed_defined_symbol@
                + "' defined"@,
    {
        let mut m = owned("real cc+ar: ");
        push_str(&mut m, self.object_path.as_str());
        push_str(&mut m, " -> ");
        push_str(&mut m, self.archive_path.as_str());
        push_str(&mut m, " (");
        push_decimal(&mut m, self.archive_size_bytes);
        push_str(&mut m, " bytes, sha256=");
        push_str(&mut m, self.archive_sha256.as_str());
        push_str(&mut m, "); nm confirms '");
        push_str(&mut m, self.confirmed_defined_symbol.as_str());
        push_str(&mut m, "' defined");
        m
    }
}

/// The items of `v` joined with `, `.
pub open spec fn joined(v: Seq<Seq<char>>) -> Seq<char>
    decreases v.len(),
{
    if v.len() == 0 {
        Seq::empty()
    } else if v.len() == 1 {
        v[0]
    } else {
        joined(v.drop_last()) + ", "@ + v.last()
    }
}

fn push_joined(m: &mut String, v: &Vec<String>)
    ensures
        final(m)@ == old(m)@ + joined(strings_view(v@)),
{
    let ghost sv = strings_view(v@);
    let ghost start = m@;
    let mut k: usize = 0;
    proof {
        assert(sv.take(0) =~= Seq::<Seq<char>>::empty());
        assert(start + joined(sv.take(0)) =~= start);
    }
    while k < v.len()
        invariant
            sv == strings_view(v@),
            k <= sv.len(),
            m@ == start + joined(sv.take(k as int)),
        decreases sv.len() - k,
    {
        if k > 0 {
            push_str(m, ", ");
        }
        push_str(m, v[k].as_str());
        proof {
            let t = sv.take(k + 1);
            assert(t.drop_last() =~= sv.take(k as int));
            assert(t.last() == sv[k as int]);
            assert(sv[k as int] == v@[k as int]@);
            if k == 0 {
                assert(joined(sv.take(0)) =~= Seq::<char>::empty());
            }
            assert(m@ =~= start + joined(t));
        }
        k = k + 1;
    }
    proof {
        assert(sv.take(k as int) =~= sv);
    }
}

/// A Rust source really compiled to an object.
#[derive(Debug, Clone, PartialEq, Eq)]
pub struct RustObjectEvidence {
    pub object_path: String,
    pub object_size_bytes: u64,
    pub object_sha256: String,
    /// The entry-point symbol `nm` confirmed as defined.
    pub confirmed_defined_entry_symbol: String,
    /// The FFI symbols `nm` confirmed as referenced but undefined.
    pub confirmed_referenced_symbols: Vec<String>,
}

impl RustObjectEvidence {
    /// The evidence as the text an obligation is discharged with.
    pub fn as_discharge_evidence(&self) -> (r: String)
        ensures
            r@ == "real rustc --emit=obj: "@ + self.object_path@ + " ("@ + decimal(self.object_size_bytes as nat)
                + " bytes, sha256="@ + self.object_sha256@ + "); nm confirms '"@ + self.confirmed_defined_entry_symbol@
                + "' defined and ["@ + joined(strings_view(self.confirmed_referenced_symbols@))
                + "] undefined-referenced"@,
    {
        let mut m = owned("real rustc --emit=obj: ");
        push_str(&mut m, self.object_path.as_str());
        push_str(&mut m, " (");
        push_decimal(&mut m, self.object_size_bytes);
        push_str(&mut m, " bytes, sha256=");
        push_str(&mut m, self.object_sha256.as_str());
        push_str(&mut m, "); nm confirms '");
        push_str(&mut m, self.confirmed_defined_entry_symbol.as_str());
        push_str(&mut m, "' defined and [");
        push_joined(&mut m, &self.confirmed_referenced_symbols);
        push_str(&mut m, "] undefined-referenced");
        m
    }
}

/// A Nim package really compiled and archived as a static library.
#[derive(Debug, Clone, PartialEq, Eq)]
pub struct NimStaticLibraryEvidence {
    pub archive_path: String,
    pub archive_size_bytes: u64,
    pub archive_sha256: String,
    /// The exported symbol `nm` confirmed as defined.
    pub confirmed_defined_symbol: String,
}

impl NimStaticLibraryEvidence {
    /// The evidence as the text an obligation is discharged with.
    pub fn as_discharge_evidence(&self) -> (r: String)
        ensures
            r@ == "real nim c --app:staticlib: "@ + self.archive_path@ + " ("@ + decimal(
                self.archive_size_bytes as nat,
            ) + " bytes, sha256="@ + self.archive_sha256@ + "); nm confirms '"@ + self.confirmed_defined_symbol@
                + "' defined"@,
    {
        let mut m = owned("real nim c --app:staticlib: ");
        push_str(&mut m, self.archive_path.as_str());
        push_str(&mut m, " (");
        push_decimal(&mut m, self.archive_size_bytes);
        push_str(&mut m, " bytes, sha256=");
        push_str(&mut m, self.archive_sha256.as_str());
        push_str(&mut m, "); nm confirms '");
        push_str(&mut m, self.confirmed_defined_symbol.as_str());
        push_str(&mut m, "' defined");
        m
    }
}

/// The decimal rendering of a signed integer.
pub open spec fn signed_decimal(n: int) -> Seq<char> {
    if n < 0 {
        "-"@ + decimal((-n) as nat)
    } else {
        decimal(n as nat)
    }
}

pub fn push_signed_decimal(m: &mut String, n: i32)
    ensures
        final(m)@ == old(m)@ + signed_decimal(n as int),
{
    if n < 0 {
        push_str(m, "-");
        let a: i64 = -(n as i64);
        push_decimal(m, a as u64);
        proof {
            assert(final(m)@ =~= old(m)@ + signed_decimal(n as int));
        }
    } else {
        push_decimal(m, n as u64);
    }
}

/// A native executable really linked and really run.
#[derive(Debug, Clone, PartialEq, Eq)]
pub struct NativeExecutableEvidence {
    pub executable_path: String,
    pub executable_size_bytes: u64,
    pub executable_sha256: String,
    pub exit_code: i32,
    pub stdout: String,
    pub stderr: String,
}

impl NativeExecutableEvidence {
    /// The evidence as the text an obligation is discharged with.
    pub fn as_discharge_evidence(&self) -> (r: String)
        ensures
            r@ == "real link + real run: "@ + self.executable_path@ + " ("@ + decimal(
                self.executable_size_bytes as nat,
            ) + " bytes, sha256="@ + self.executable_sha256@ + "); exit="@ + signed_decimal(self.exit_code as int)
                + " stdout="@ + debug_str(self.stdout@) + " stderr="@ + debug_str(self.stderr@),
    {
        let mut m = owned("real link + real run: ");
        push_str(&mut m, self.executable_path.as_str());
        push_str(&mut m, " (");
        push_decimal(&mut m, self.executable_size_bytes);
        push_str(&mut m, " bytes, sha256=");
        push_str(&mut m, self.executable_sha256.as_str());
        push_str(&mut m, "); exit=");
        push_signed_decimal(&mut m, self.exit_code);
        push_str(&mut m, " stdout=");
        let q = debug_quoted(self.stdout.as_str());
        push_str(&mut m, q.as_str());
        push_str(&mut m, " stderr=");
        let q2 = debug_quoted(self.stderr.as_str());
        push_str(&mut m, q2.as_str());
        m
    }
}

/// The three foreign static archives a native link needs search
/// directories for.
#[derive(Debug, Clone, PartialEq, Eq)]
pub struct NativeArchives {
    pub cadd: String,
    pub cppmax: String,
    pub doubler: String,
}

// ---------------------------------------------------------------------
// The commands of the native chain
// ---------------------------------------------------------------------

/// `cc`/`c++` compiling one source to an object, with its own directory
/// on the include path.
pub fn native_compile_args(source_path: &str, include_dir: &str, object_path: &str) -> (r: Vec<String>)
    ensures
        strings_view(r@) == seq!["-c"@, source_path@, "-I"@, include_dir@, "-o"@, object_path@],
{
    let mut v: Vec<String> = Vec::new();
    v.push(owned("-c"));
    v.push(owned(source_path));
    v.push(owned("-I"));
    v.push(owned(include_dir));
    v.push(owned("-o"));
    v.push(owned(object_path));
    proof {
        assert(strings_view(v@) =~= seq!["-c"@, source_path@, "-I"@, include_dir@, "-o"@, object_path@]);
    }
    v
}

/// `ar` archiving one object.
pub fn archive_args(archive_path: &str, object_path: &str) -> (r: Vec<String>)
    ensures
        strings_view(r@) == seq!["rcs"@, archive_path@, object_path@],
{
    let mut v: Vec<String> = Vec::new();
    v.push(owned("rcs"));
    v.push(owned(archive_path));
    v.push(owned(object_path));
    proof {
        assert(strings_view(v@) =~= seq!["rcs"@, archive_path@, object_path@]);
    }
    v
}

/// `nim c` building one source as a static library, with its nimcache.
pub fn nim_staticlib_args(nimcache_dir: &str, archive_path: &str, source_path: &str) -> (r: Vec<String>)
    ensures
        strings_view(r@) == seq![
            "c"@,
            "--app:staticlib"@,
            "--nimcache:"@ + nimcache_dir@,
            "-o:"@ + archive_path@,
            source_path@,
        ],
{
    let mut v: Vec<String> = Vec::new();
    v.push(owned("c"));
    v.push(owned("--app:staticlib"));
    let mut cache = owned("--nimcache:");
    push_str(&mut cache, nimcache_dir);
    v.push(cache);
    let mut out = owned("-o:");
    push_str(&mut out, archive_path);
    v.push(out);
    v.push(owned(source_path));
    proof {
        assert(strings_view(v@) =~= seq![
            "c"@,
            "--app:staticlib"@,
            "--nimcache:"@ + nimcache_dir@,
            "-o:"@ + archive_path@,
            source_path@,
        ]);
    }
    v
}

/// `--cfg feature="<f>"` for each active feature, in order.
pub open spec fn feature_cfgs(features: Seq<Seq<char>>) -> Seq<Seq<char>>
    decreases features.len(),
{
    if features.len() == 0 {
        Seq::empty()
    } else {
        feature_cfgs(features.drop_last()) + seq!["--cfg"@, "feature=\""@ + features.last() + "\""@]
    }
}

/// What every `rustc` invocation of the application starts with: its
/// edition, its crate name, a binary crate, and its active features.
pub open spec fn rustc_head(edition: Seq<char>, package_name: Seq<char>, features: Seq<Seq<char>>) -> Seq<Seq<char>> {
    seq!["--edition"@, edition, "--crate-name"@, package_name, "--crate-type"@, "bin"@] + feature_cfgs(features)
}

fn push_rustc_head(v: &mut Vec<String>, edition: &str, package_name: &str, features: &Vec<String>)
    ensures
        strings_view(final(v)@) == strings_view(old(v)@) + rustc_head(edition@, package_name@, strings_view(features@)),
{
    let ghost start = strings_view(v@);
    v.push(owned("--edition"));
    v.push(owned(edition));
    v.push(owned("--crate-name"));
    v.push(owned(package_name));
    v.push(owned("--crate-type"));
    v.push(owned("bin"));
    let ghost head = seq!["--edition"@, edition@, "--crate-name"@, package_name@, "--crate-type"@, "bin"@];
    proof {
        assert(strings_view(v@) =~= start + head);
    }
    let mut k: usize = 0;
    while k < features.len()
        invariant
            k <= features@.len(),
            strings_view(v@) == start + head + feature_cfgs(strings_view(features@).take(k as int)),
        decreases features@.len() - k,
    {
        let ghost prev = strings_view(v@);
        v.push(owned("--cfg"));
        let mut c = owned("feature=\"");
        push_str(&mut c, features[k].as_str());
        push_str(&mut c, "\"");
        v.push(c);
        proof {
            let fs = strings_view(features@);
            assert(fs.take(k + 1).drop_last() =~= fs.take(k as int));
            assert(fs.take(k + 1).last() == features@[k as int]@);
            assert(strings_view(v@) =~= prev + seq!["--cfg"@, "feature=\""@ + features@[k as int]@ + "\""@]);
        }
        k = k + 1;
    }
    proof {
        assert(strings_view(features@).take(features@.len() as int) =~= strings_view(features@));
        assert(start + head + feature_cfgs(strings_view(features@)) =~= start + rustc_head(
            edition@,
            package_name@,
            strings_view(features@),
        ));
    }
}

/// `rustc` compiling the application to an object only (no link), with
/// the edition and the active features Cargo reported.
pub fn rust_object_args(
    edition: &str,
    package_name: &str,
    features: &Vec<String>,
    object_path: &str,
    main_rs: &str,
) -> (r: Vec<String>)
    ensures
        strings_view(r@) == rustc_head(edition@, package_name@, strings_view(features@)) + seq![
            "--emit"@,
            "obj"@,
            "-o"@,
            object_path@,
            main_rs@,
        ],
{
    let mut v: Vec<String> = Vec::new();
    proof {
        assert(strings_view(v@) =~= Seq::<Seq<char>>::empty());
    }
    push_rustc_head(&mut v, edition, package_name, features);
    let ghost head = strings_view(v@);
    v.push(owned("--emit"));
    v.push(owned("obj"));
    v.push(owned("-o"));
    v.push(owned(object_path));
    v.push(owned(main_rs));
    proof {
        assert(strings_view(v@) =~= head + seq!["--emit"@, "obj"@, "-o"@, object_path@, main_rs@]);
    }
    v
}

/// `-L <dir>` for each search directory, in order.
pub open spec fn search_flags(dirs: Seq<Seq<char>>) -> Seq<Seq<char>>
    decreases dirs.len(),
{
    if dirs.len() == 0 {
        Seq::empty()
    } else {
        search_flags(dirs.drop_last()) + seq!["-L"@, dirs.last()]
    }
}

/// `rustc` linking the application against the archives in `search_dirs`
/// into the executable.
pub fn link_args(
    edition: &str,
    package_name: &str,
    features: &Vec<String>,
    search_dirs: &Vec<String>,
    executable_path: &str,
    main_rs: &str,
) -> (r: Vec<String>)
    ensures
        strings_view(r@) == rustc_head(edition@, package_name@, strings_view(features@)) + search_flags(
            strings_view(search_dirs@),
        ) + seq!["-o"@, executable_path@, main_rs@],
{
    let mut v: Vec<String> = Vec::new();
    proof {
        assert(strings_view(v@) =~= Seq::<Seq<char>>::empty());
    }
    push_rustc_head(&mut v, edition, package_name, features);
    let ghost head = strings_view(v@);
    let mut k: usize = 0;
    while k < search_dirs.len()
        invariant
            k <= search_dirs@.len(),
            strings_view(v@) == head + search_flags(strings_view(search_dirs@).take(k as int)),
        decreases search_dirs@.len() - k,
    {
        let ghost prev = strings_view(v@);
        v.push(owned("-L"));
        v.push(search_dirs[k].clone());
        proof {
            let ds = strings_view(search_dirs@);
            assert(ds.take(k + 1).drop_last() =~= ds.take(k as int));
            assert(ds.take(k + 1).last() == search_dirs@[k as int]@);
            assert(strings_view(v@) =~= prev + seq!["-L"@, search_dirs@[k as int]@]);
        }
        k = k + 1;
    }
    proof {
        assert(strings_view(search_dirs@).take(search_dirs@.len() as int) =~= strings_view(search_dirs@));
    }
    let ghost mid = strings_view(v@);
    v.push(owned("-o"));
    v.push(owned(executable_path));
    v.push(owned(main_rs));
    proof {
        assert(strings_view(v@) =~= mid + seq!["-o"@, executable_path@, main_rs@]);
    }
    v
}

/// What `Path::parent` gives for `path`.
pub uninterp spec fn path_parent(path: Seq<char>) -> Option<Seq<char>>;

/// The directory `path` is in, if it has one.
#[verifier::external_body]
pub(crate) fn parent_of(path: &str) -> (r: Option<String>)
    ensures
        crate::toolchain_resolve::opt_view(r) == path_parent(path@),
{
    match std::path::Path::new(path).parent() {
        Some(p) => Some(p.to_string_lossy().into_owned()),
        None => None,
    }
}

/// Whether some directory of `dirs` is `d`, as text or as a path.
pub open spec fn has_same_path(dirs: Seq<Seq<char>>, d: Seq<char>) -> bool {
    exists|i: int| 0 <= i < dirs.len() && (#[trigger] dirs[i] == d || crate::reuse::same_path(dirs[i], d))
}

/// Every directory is the directory of one of the archive paths.
pub open spec fn dirs_are_parents(dirs: Seq<String>, paths: Seq<String>) -> bool {
    forall|j: int| 0 <= j < dirs.len() ==> exists|i: int| 0 <= i < paths.len()
        && path_parent(paths[i]@) == Some(#[trigger] dirs[j]@)
}

/// The directory of each of the first `k` archive paths is among `dirs`.
pub open spec fn parents_covered(dirs: Seq<String>, paths: Seq<String>, k: int) -> bool {
    forall|i: int| 0 <= i < k ==> has_same_path(crate::resource_scheduler::strings_view(dirs), #[trigger] path_parent(paths[i]@).unwrap())
}

/// No two directories are the same path.
pub open spec fn distinct_dirs(dirs: Seq<String>) -> bool {
    forall|a: int, b: int| 0 <= a < b < dirs.len() ==> !crate::reuse::same_path(#[trigger] dirs[a]@, #[trigger] dirs[b]@)
}

/// The directories of the first `k` archive paths, each kept the first
/// time it is met and skipped when an equal path is already there.
pub open spec fn first_met_dirs(paths: Seq<String>, k: int) -> Seq<Seq<char>>
    decreases k,
{
    if k <= 0 {
        Seq::empty()
    } else {
        let d = first_met_dirs(paths, k - 1);
        let p = path_parent(paths[k - 1]@).unwrap();
        if exists|x: int| 0 <= x < d.len() && crate::reuse::same_path(#[trigger] d[x], p) {
            d
        } else {
            d.push(p)
        }
    }
}

/// The directories of the archives, each once (by path equality), in the
/// order first met. An archive path without a directory fails with an
/// I/O error naming it.
pub fn link_search_dirs(archive_paths: &Vec<String>) -> (r: Result<Vec<String>, G2Error>)
    ensures
        (forall|i: int| 0 <= i < archive_paths@.len() ==> path_parent(#[trigger] archive_paths@[i]@) is Some) <==> r is Ok,
        r matches Ok(dirs) ==> strings_view(dirs@) == first_met_dirs(archive_paths@, archive_paths@.len() as int),
        r matches Ok(dirs) ==> dirs_are_parents(dirs@, archive_paths@) && parents_covered(
            dirs@,
            archive_paths@,
            archive_paths@.len() as int,
        ) && distinct_dirs(dirs@),
        r matches Err(e) ==> exists|i: int| 0 <= i < archive_paths@.len() && path_parent(#[trigger] archive_paths@[i]@) is None
            && (forall|j: int| 0 <= j < i ==> path_parent(#[trigger] archive_paths@[j]@) is Some)
            && e == G2Error::Io(e->Io_0) && e->Io_0@ == "archive path '"@ + archive_paths@[i]@ + "' has no parent directory"@,
{
    let mut dirs: Vec<String> = Vec::new();
    let mut k: usize = 0;
    while k < archive_paths.len()
        invariant
            k <= archive_paths@.len(),
            forall|i: int| 0 <= i < k ==> path_parent(#[trigger] archive_paths@[i]@) is Some,
            dirs_are_parents(dirs@, archive_paths@),
            parents_covered(dirs@, archive_paths@, k as int),
            distinct_dirs(dirs@),
            strings_view(dirs@) == first_met_dirs(archive_paths@, k as int),
        decreases archive_paths@.len() - k,
    {
        let dir = match parent_of(archive_paths[k].as_str()) {
            Some(d) => d,
            None => {
                let mut m = owned("archive path '");
                push_str(&mut m, archive_paths[k].as_str());
                push_str(&mut m, "' has no parent directory");
                return Err(G2Error::Io(m));
            },
        };
        let mut seen = false;
        let mut j: usize = 0;
        while j < dirs.len()
            invariant
                j <= dirs@.len(),
                seen == exists|x: int| 0 <= x < j && crate::reuse::same_path(#[trigger] dirs@[x]@, dir@),
            decreases dirs@.len() - j,
        {
            if crate::reuse::paths_equal(dirs[j].as_str(), dir.as_str()) {
                seen = true;
            }
            proof {
                if crate::reuse::same_path(dirs@[j as int]@, dir@) {
                    assert(exists|x: int| 0 <= x < j + 1 && crate::reuse::same_path(#[trigger] dirs@[x]@, dir@));
                }
            }
            j = j + 1;
        }
        let ghost old_dirs = dirs@;
        let ghost dv = dir@;
        if !seen {
            dirs.push(dir);
        }
        proof {
            let d = first_met_dirs(archive_paths@, k as int);
            assert(d == strings_view(old_dirs));
            assert(path_parent(archive_paths@[k as int]@).unwrap() == dv);
            if seen {
                let x = choose|x: int| 0 <= x < j && crate::reuse::same_path(#[trigger] dirs@[x]@, dir@);
                assert(d[x] == old_dirs[x]@);
                assert(exists|y: int| 0 <= y < d.len() && crate::reuse::same_path(#[trigger] d[y], dv));
                assert(strings_view(dirs@) == first_met_dirs(archive_paths@, k + 1));
            } else {
                assert(!exists|y: int| 0 <= y < d.len() && crate::reuse::same_path(#[trigger] d[y], dv)) by {
                    if exists|y: int| 0 <= y < d.len() && crate::reuse::same_path(#[trigger] d[y], dv) {
                        let y = choose|y: int| 0 <= y < d.len() && crate::reuse::same_path(#[trigger] d[y], dv);
                        assert(d[y] == old_dirs[y]@);
                        assert(crate::reuse::same_path(dirs@[y]@, dir@));
                    }
                }
                assert(strings_view(dirs@) =~= strings_view(old_dirs).push(dv));
                assert(strings_view(dirs@) == first_met_dirs(archive_paths@, k + 1));
            }
            assert forall|i: int| 0 <= i < k + 1 implies has_same_path(strings_view(dirs@), #[trigger] path_parent(archive_paths@[i]@).unwrap()) by {
                if i < k {
                    let p = path_parent(archive_paths@[i]@).unwrap();
                    let x = choose|x: int| 0 <= x < strings_view(old_dirs).len() && (#[trigger] strings_view(old_dirs)[x] == p
                        || crate::reuse::same_path(strings_view(old_dirs)[x], p));
                    assert(strings_view(dirs@)[x] == strings_view(old_dirs)[x]);
                } else {
                    if seen {
                        let x = choose|x: int| 0 <= x < j && crate::reuse::same_path(#[trigger] dirs@[x]@, dir@);
                        assert(strings_view(dirs@)[x] == dirs@[x]@);
                    } else {
                        assert(strings_view(dirs@)[old_dirs.len() as int] == dv);
                    }
                }
            }
            assert forall|x: int| 0 <= x < dirs@.len() implies exists|i: int| 0 <= i < archive_paths@.len()
                && path_parent(archive_paths@[i]@) == Some(#[trigger] dirs@[x]@) by {
                if x < old_dirs.len() {
                    assert(dirs@[x] == old_dirs[x]);
                } else {
                    assert(path_parent(archive_paths@[k as int]@) == Some(dirs@[x]@));
                }
            }
            assert forall|a: int, b: int| 0 <= a < b < dirs@.len() implies !crate::reuse::same_path(#[trigger] dirs@[a]@, #[trigger] dirs@[b]@) by {
                if b < old_dirs.len() {
                    assert(dirs@[a] == old_dirs[a] && dirs@[b] == old_dirs[b]);
                } else {
                    assert(dirs@[a] == old_dirs[a]);
                }
            }
        }
        k = k + 1;
    }
    Ok(dirs)
}

} // verus!
