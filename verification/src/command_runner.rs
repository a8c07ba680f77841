//! The one seam through which metadata ingestion ever spawns a process.
//! Exactly three read-only metadata and version queries are permitted;
//! every compiler, archiver, linker, package build, package install or
//! build-script invocation is forbidden. [`is_permitted`] is the single
//! place that boundary is decided.
//!
//! [`RealCommandRunner`] refuses anything outside the permitted set before
//! a process exists; [`RecordingCommandRunner`] records every attempted
//! command and passes it on to the runner it wraps, so a test sees exactly
//! what ingestion asked for. The recorder accepts only permitted commands:
//! a forbidden one is never asked of it.

use vstd::prelude::*;

use crate::text::{debug_items, owned, push_debug_strs, push_str, str_eq, strs_view};

verus! {

/// Why ingestion failed.
#[derive(Debug, Clone, PartialEq, Eq)]
pub enum IngestError {
    Io(String),
    Parse(String),
    ForbiddenCommand(String),
}

pub enum IngestErrorView {
    Io(Seq<char>),
    Parse(Seq<char>),
    ForbiddenCommand(Seq<char>),
}

impl View for IngestError {
    type V = IngestErrorView;

    open spec fn view(&self) -> IngestErrorView {
        match self {
            IngestError::Io(d) => IngestErrorView::Io(d@),
            IngestError::Parse(d) => IngestErrorView::Parse(d@),
            IngestError::ForbiddenCommand(d) => IngestErrorView::ForbiddenCommand(d@),
        }
    }
}

/// The human-readable text of an ingestion error.
pub open spec fn ingest_error_text(e: IngestErrorView) -> Seq<char> {
    match e {
        IngestErrorView::Io(d) => "ingestion I/O error: "@ + d,
        IngestErrorView::Parse(d) => "ingestion parse error: "@ + d,
        IngestErrorView::ForbiddenCommand(d) => "forbidden command in G1 ingestion: "@ + d,
    }
}

impl IngestError {
    /// The error's human-readable text.
    pub fn message(&self) -> (r: String)
        ensures
            r@ == ingest_error_text(self@),
    {
        match self {
            IngestError::Io(d) => {
                let mut m = owned("ingestion I/O error: ");
                push_str(&mut m, d.as_str());
                m
            },
            IngestError::Parse(d) => {
                let mut m = owned("ingestion parse error: ");
                push_str(&mut m, d.as_str());
                m
            },
            IngestError::ForbiddenCommand(d) => {
                let mut m = owned("forbidden command in G1 ingestion: ");
                push_str(&mut m, d.as_str());
                m
            },
        }
    }
}

/// The permitted commands: `cargo metadata` with `--no-deps` and
/// `--format-version 1`, `nimble dump --json`, and `rustc -vV`.
pub open spec fn permitted(program: Seq<char>, args: Seq<Seq<char>>) -> bool {
    if program == "cargo"@ {
        &&& args.len() > 0
        &&& args[0] == "metadata"@
        &&& args.contains("--no-deps"@)
        &&& exists|i: int| 0 <= i < args.len() - 1 && #[trigger] args[i] == "--format-version"@ && args[i + 1] == "1"@
    } else if program == "nimble"@ {
        args == seq!["dump"@, "--json"@]
    } else if program == "rustc"@ {
        args == seq!["-vV"@]
    } else {
        false
    }
}

/// Whether `program` run with `args` is one of the permitted read-only
/// queries.
pub fn is_permitted(program: &str, args: &[&str]) -> (r: bool)
    ensures
        r == permitted(program@, strs_view(args@)),
{
    let ghost av = strs_view(args@);
    if str_eq(program, "cargo") {
        if args.len() == 0 {
            return false;
        }
        proof {
            assert(av[0] == args@[0]@);
        }
        if !str_eq(args[0], "metadata") {
            return false;
        }
        let mut no_deps = false;
        let mut format_one = false;
        let mut i: usize = 0;
        while i < args.len()
            invariant
                av == strs_view(args@),
                i <= av.len(),
                no_deps <==> exists|j: int| 0 <= j < i && av[j] == "--no-deps"@,
                format_one <==> exists|j: int| 0 <= j < i && j < av.len() - 1 && #[trigger] av[j] == "--format-version"@ && av[j + 1] == "1"@,
            decreases av.len() - i,
        {
            proof {
                assert(av[i as int] == args@[i as int]@);
            }
            if str_eq(args[i], "--no-deps") {
                no_deps = true;
            }
            if i + 1 < args.len() && str_eq(args[i], "--format-version") {
                proof {
                    assert(av[i + 1] == args@[i + 1]@);
                }
                if str_eq(args[i + 1], "1") {
                    format_one = true;
                }
            }
            proof {
                if !no_deps {
                    assert(!(exists|j: int| 0 <= j < i + 1 && av[j] == "--no-deps"@)) by {
                        if exists|j: int| 0 <= j < i + 1 && av[j] == "--no-deps"@ {
                            let j = choose|j: int| 0 <= j < i + 1 && av[j] == "--no-deps"@;
                            assert(j < i);
                        }
                    }
                }
                if !format_one {
                    assert(!(exists|j: int| 0 <= j < i + 1 && j < av.len() - 1 && #[trigger] av[j] == "--format-version"@ && av[j + 1] == "1"@)) by {
                        if exists|j: int| 0 <= j < i + 1 && j < av.len() - 1 && #[trigger] av[j] == "--format-version"@ && av[j + 1] == "1"@ {
                            let j = choose|j: int| 0 <= j < i + 1 && j < av.len() - 1 && #[trigger] av[j] == "--format-version"@ && av[j + 1] == "1"@;
                            assert(j < i);
                        }
                    }
                }
            }
            i = i + 1;
        }
        no_deps && format_one
    } else if str_eq(program, "nimble") {
        if args.len() != 2 {
            return false;
        }
        proof {
            assert(av[0] == args@[0]@ && av[1] == args@[1]@);
        }
        let r = str_eq(args[0], "dump") && str_eq(args[1], "--json");
        proof {
            if r {
                assert(av =~= seq!["dump"@, "--json"@]);
            }
        }
        r
    } else if str_eq(program, "rustc") {
        if args.len() != 1 {
            return false;
        }
        proof {
            assert(av[0] == args@[0]@);
        }
        let r = str_eq(args[0], "-vV");
        proof {
            if r {
                assert(av =~= seq!["-vV"@]);
            }
        }
        r
    } else {
        false
    }
}

/// How a refused command is named: the program, then its arguments as a
/// `Debug` list.
pub open spec fn command_text(program: Seq<char>, args: Seq<Seq<char>>) -> Seq<char> {
    program + " "@ + ("["@ + debug_items(args) + "]"@)
}

/// One exchange with a runner: the program, its arguments, the working
/// directory asked for, and the answer (standard output, or the error).
pub type Exchange = (Seq<char>, Seq<Seq<char>>, Option<Seq<char>>, Result<Seq<char>, IngestErrorView>);

/// An answer of a runner, as a value.
pub open spec fn reply_view(r: Result<String, IngestError>) -> Result<Seq<char>, IngestErrorView> {
    match r {
        Ok(s) => Ok(s@),
        Err(e) => Err(e@),
    }
}

/// A working directory, as a value.
pub open spec fn cwd_view(cwd: Option<&str>) -> Option<Seq<char>> {
    match cwd {
        Some(d) => Some(d@),
        None => None,
    }
}

/// The one seam ingestion runs a process through.
///
/// A runner may describe itself to the verifier: which commands it
/// accepts (a runner that stops on a command leaves it out), and whether
/// it keeps a log of its exchanges, to which each `run` then adds exactly
/// one. A runner written outside the library keeps the defaults: it
/// accepts every command and is described by no log.
pub trait CommandRunner {
    /// Whether this runner's exchanges are described by [`exchanges`].
    closed spec fn keeps_log() -> bool {
        false
    }

    /// Every exchange so far, in call order (meaningful when the runner
    /// keeps a log).
    closed spec fn exchanges(&self) -> Seq<Exchange> {
        Seq::empty()
    }

    /// Whether this runner may be asked to run `program` with `args`.
    closed spec fn accepts(program: Seq<char>, args: Seq<Seq<char>>) -> bool {
        true
    }

    /// Runs `program` with `args` (in `cwd`, when given) and returns its
    /// standard output.
    fn run(&mut self, program: &str, args: &[&str], cwd: Option<&str>) -> (r: Result<String, IngestError>)
        requires
            Self::accepts(program@, strs_view(args@)),
        ensures
            Self::keeps_log() ==> final(self).exchanges() == old(self).exchanges().push(
                (program@, strs_view(args@), cwd_view(cwd), reply_view(r)),
            ),
    ;
}

/// The production runner's decision: it executes exactly the permitted
/// queries and refuses everything else before any process exists.
#[derive(Debug, Default, Clone, Copy)]
pub struct RealCommandRunner;

impl RealCommandRunner {
    /// Refuses a command outside the permitted set, naming it; a permitted
    /// command may run.
    pub fn check(&self, program: &str, args: &[&str]) -> (r: Result<(), IngestError>)
        ensures
            permitted(program@, strs_view(args@)) ==> r is Ok,
            !permitted(program@, strs_view(args@)) ==> (r matches Err(e) && e@ == IngestErrorView::ForbiddenCommand(
                command_text(program@, strs_view(args@)),
            )),
    {
        if is_permitted(program, args) {
            Ok(())
        } else {
            let mut d = owned(program);
            push_str(&mut d, " ");
            let ghost mid = d@;
            push_str(&mut d, "[");
            push_debug_strs(&mut d, args);
            push_str(&mut d, "]");
            proof {
                assert(d@ =~= command_text(program@, strs_view(args@)));
            }
            Err(IngestError::ForbiddenCommand(d))
        }
    }
}

/// The test double: records every attempted command in call order, then
/// passes it to the runner it wraps. It accepts only the permitted
/// commands (and what the wrapped runner accepts): a forbidden command is
/// never asked of it.
pub struct RecordingCommandRunner<R: CommandRunner> {
    inner: R,
    recorded: Vec<(String, Vec<String>)>,
    answers: Ghost<Seq<(Option<Seq<char>>, Result<Seq<char>, IngestErrorView>)>>,
}

pub open spec fn command_view(c: (String, Vec<String>)) -> (Seq<char>, Seq<Seq<char>>) {
    (c.0@, crate::resource_scheduler::strings_view(c.1@))
}

/// The commands of a log of exchanges, in order.
pub open spec fn commands_of(xs: Seq<Exchange>) -> Seq<(Seq<char>, Seq<Seq<char>>)> {
    xs.map_values(|x: Exchange| (x.0, x.1))
}

fn copy_args(args: &[&str]) -> (r: Vec<String>)
    ensures
        crate::resource_scheduler::strings_view(r@) == strs_view(args@),
{
    let mut copied: Vec<String> = Vec::new();
    let mut k: usize = 0;
    while k < args.len()
        invariant
            k <= args@.len(),
            crate::resource_scheduler::strings_view(copied@) == strs_view(args@).take(k as int),
        decreases args@.len() - k,
    {
        let ghost prev = copied@;
        copied.push(owned(args[k]));
        proof {
            assert(crate::resource_scheduler::strings_view(copied@) =~= crate::resource_scheduler::strings_view(prev).push(args@[k as int]@));
            assert(strs_view(args@).take(k + 1) =~= strs_view(args@).take(k as int).push(args@[k as int]@));
        }
        k = k + 1;
    }
    proof {
        assert(strs_view(args@).take(k as int) =~= strs_view(args@));
    }
    copied
}

impl<R: CommandRunner> RecordingCommandRunner<R> {
    /// The commands attempted so far, in call order.
    pub closed spec fn attempts(&self) -> Seq<(Seq<char>, Seq<Seq<char>>)> {
        self.recorded@.map_values(|c: (String, Vec<String>)| command_view(c))
    }

    /// A recorder that has recorded nothing, in front of `inner`.
    pub fn new(inner: R) -> (r: Self)
        ensures
            r.attempts() == Seq::<(Seq<char>, Seq<Seq<char>>)>::empty(),
            r.exchanges() == Seq::<Exchange>::empty(),
    {
        let r = RecordingCommandRunner { inner, recorded: Vec::new(), answers: Ghost(Seq::empty()) };
        proof {
            assert(r.attempts() =~= Seq::<(Seq<char>, Seq<Seq<char>>)>::empty());
            assert(r.exchanges() =~= Seq::<Exchange>::empty());
        }
        r
    }

    /// Every command attempted through this runner, in call order.
    pub fn recorded_commands(&self) -> (r: Vec<(String, Vec<String>)>)
        ensures
            r@.map_values(|c: (String, Vec<String>)| command_view(c)) == self.attempts(),
    {
        let mut out: Vec<(String, Vec<String>)> = Vec::new();
        let mut k: usize = 0;
        while k < self.recorded.len()
            invariant
                k <= self.recorded@.len(),
                out@.map_values(|c: (String, Vec<String>)| command_view(c)) == self.attempts().take(k as int),
            decreases self.recorded@.len() - k,
        {
            let ghost prev = out@;
            let c = &self.recorded[k];
            let copy = (c.0.clone(), crate::resource_scheduler::clone_strings(&c.1));
            out.push(copy);
            proof {
                assert(command_view(copy) == command_view(self.recorded@[k as int]));
                assert(out@.map_values(|c: (String, Vec<String>)| command_view(c)) =~= prev.map_values(|c: (String, Vec<String>)| command_view(c)).push(command_view(copy)));
                assert(self.attempts().take(k + 1) =~= self.attempts().take(k as int).push(command_view(self.recorded@[k as int])));
            }
            k = k + 1;
        }
        proof {
            assert(self.attempts().take(k as int) =~= self.attempts());
        }
        out
    }
}

impl<R: CommandRunner> CommandRunner for RecordingCommandRunner<R> {
    open spec fn keeps_log() -> bool {
        true
    }

    closed spec fn exchanges(&self) -> Seq<Exchange> {
        Seq::new(
            self.recorded@.len(),
            |i: int|
                (
                    command_view(self.recorded@[i]).0,
                    command_view(self.recorded@[i]).1,
                    self.answers@[i].0,
                    self.answers@[i].1,
                ),
        )
    }

    open spec fn accepts(program: Seq<char>, args: Seq<Seq<char>>) -> bool {
        permitted(program, args) && R::accepts(program, args)
    }

    fn run(&mut self, program: &str, args: &[&str], cwd: Option<&str>) -> (r: Result<String, IngestError>) {
        let ghost before = self.exchanges();
        let ghost n = self.recorded@.len();
        let ghost old_rec = self.recorded@;
        let ghost old_ans = self.answers@;
        let entry = (owned(program), copy_args(args));
        let ghost ev = command_view(entry);
        self.recorded.push(entry);
        let r = self.inner.run(program, args, cwd);
        self.answers = Ghost(
            Seq::new(
                (n + 1) as nat,
                |i: int|
                    if i < n {
                        old_ans[i]
                    } else {
                        (cwd_view(cwd), reply_view(r))
                    },
            ),
        );
        proof {
            let x = (program@, strs_view(args@), cwd_view(cwd), reply_view(r));
            let now = self.exchanges();
            assert(self.recorded@ == old_rec.push(entry));
            assert(now.len() == n + 1);
            assert forall|i: int| 0 <= i < n implies #[trigger] now[i] == before[i] by {
                assert(self.recorded@[i] == old_rec[i]);
                assert(self.answers@[i] == old_ans[i]);
            }
            assert(self.recorded@[n as int] == entry);
            assert(now[n as int] == x);
            assert(now =~= before.push(x));
        }
        r
    }
}

/// A recorder lists exactly the commands of its exchanges: after `new`
/// and any number of calls of `run`, `recorded_commands` gives every
/// command asked of it, in call order.
pub proof fn law_recorder_lists_every_call<R: CommandRunner>(r: &RecordingCommandRunner<R>)
    ensures
        r.attempts() == commands_of(r.exchanges()),
{
    assert(r.attempts() =~= commands_of(r.exchanges()));
}

} // verus!
