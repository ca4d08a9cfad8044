//! The build-invocation interceptor's decision logic and its shared record.
//! The interceptor inspects each compiler command before it runs: it locates
//! the output-directory flag, selects the effective working directory, and
//! picks out the source-file arguments; the facts of all invocations
//! accumulate monotonically in one shared context. Path resolution, locking
//! and the actual execution of the command belong to the caller that drives
//! the build.

use vstd::prelude::*;
use vstd::string::StrSliceExecFns;
use vstd::string::StringExecFns;

verus! {

/// The interceptor installed into the external build orchestrator, invoked
/// once per compilation unit.
pub struct CustomExecutor {
    /// Fallback working directory for path resolution, used when a command
    /// does not declare one of its own.
    pub cwd: String,
}

/// Why one intercepted invocation failed. A failure is fatal for that
/// invocation alone and never aborts the overall build.
#[derive(Debug)]
pub enum CustomExecutorError {
    /// The shared context's lock was poisoned by an earlier panic.
    InnerContextMutex(String),
    /// A source path could not be resolved: the cause, then the path.
    Io(String, String),
    /// The command names no output directory; the payload renders the
    /// offending command.
    OutDirKeyMissing(String),
    /// The output-directory flag is the last argument, so its value is
    /// missing; the payload renders the offending command.
    OutDirValueMissing(String),
}

/// Process-lifetime shared record: every source file passed to a compiler
/// invocation across the whole build, and every output directory, each held
/// once.
pub struct CustomExecutorInnerContext {
    /// All source files passed to the compiler during the build.
    pub rs_file_args: Vec<String>,
    /// All output directories named by intercepted invocations.
    pub out_dir_args: Vec<String>,
}

/// What one invocation settles on before any file-system work: the output
/// directory, the effective working directory, and the source-file arguments
/// still to be resolved against it.
pub struct InvocationPlan {
    pub out_dir: String,
    pub cwd: String,
    pub rs_file_args: Vec<String>,
}

/// Whether an argument names a source file: at least three characters, the
/// last three being `.rs` with the letters in either ASCII case. The test is
/// deliberately ASCII-case-insensitive and no more: a full Unicode
/// lowercasing would also accept exotic spellings whose lowercase form ends
/// in the suffix (the long s U+017F lowercases to `s`), which no compiler
/// accepts as a source-file name.
pub open spec fn is_rs_file_arg(s: Seq<char>) -> bool {
    &&& s.len() >= 3
    &&& s[s.len() - 3] == '.'
    &&& (s[s.len() - 2] == 'r' || s[s.len() - 2] == 'R')
    &&& (s[s.len() - 1] == 's' || s[s.len() - 1] == 'S')
}

/// The source-file arguments among the first `i` arguments, in order.
pub open spec fn rs_args_upto(args: Seq<Seq<char>>, i: int) -> Seq<Seq<char>>
    decreases i,
{
    if i <= 0 {
        Seq::empty()
    } else if is_rs_file_arg(args[i - 1]) {
        rs_args_upto(args, i - 1).push(args[i - 1])
    } else {
        rs_args_upto(args, i - 1)
    }
}

/// The source-file arguments of a whole command, in order.
pub open spec fn rs_args(args: Seq<Seq<char>>) -> Seq<Seq<char>> {
    rs_args_upto(args, args.len() as int)
}

/// The first position at or after `i` whose argument equals `flag`.
pub open spec fn find_flag_from(args: Seq<Seq<char>>, flag: Seq<char>, i: int) -> Option<int>
    decreases args.len() - i,
{
    if i < 0 || i >= args.len() {
        None
    } else if args[i] == flag {
        Some(i)
    } else {
        find_flag_from(args, flag, i + 1)
    }
}

/// The first position of `flag` among the arguments, if any.
pub open spec fn find_flag(args: Seq<Seq<char>>, flag: Seq<char>) -> Option<int> {
    find_flag_from(args, flag, 0)
}

/// The output-directory flag.
pub open spec fn out_dir_flag() -> Seq<char> {
    "--out-dir"@
}

/// The command's arguments joined by single spaces, for diagnostics.
pub open spec fn rendered_command_upto(args: Seq<Seq<char>>, i: int) -> Seq<char>
    decreases i,
{
    if i <= 0 {
        Seq::empty()
    } else if i == 1 {
        args[0]
    } else {
        rendered_command_upto(args, i - 1) + seq![' '] + args[i - 1]
    }
}

/// The whole command rendered for diagnostics.
pub open spec fn rendered_command(args: Seq<Seq<char>>) -> Seq<char> {
    rendered_command_upto(args, args.len() as int)
}

/// The first position whose argument equals the flag, if any.
fn find_flag_index(args: &Vec<String>, flag: &String) -> (r: Option<usize>)
    ensures
        match r {
            Some(i) => i < args@.len() && find_flag(args.deep_view(), flag@) == Some(i as int),
            None => find_flag(args.deep_view(), flag@) is None,
        },
{
    let n = args.len();
    let mut i: usize = 0;
    while i < n
        invariant
            i <= n,
            n == args@.len(),
            find_flag(args.deep_view(), flag@) == find_flag_from(args.deep_view(), flag@, i as int),
        decreases n - i,
    {
        proof {
            assert(args.deep_view()[i as int] == args@[i as int]@);
        }
        if args[i] == *flag {
            return Some(i);
        }
        i += 1;
    }
    None
}

/// Whether an argument's last three characters are `.rs`, the letters in
/// either case.
fn has_rs_suffix(s: &String) -> (r: bool)
    ensures
        r == is_rs_file_arg(s@),
{
    let len = s.as_str().unicode_len();
    if len < 3 {
        return false;
    }
    let c1 = s.as_str().get_char(len - 3);
    let c2 = s.as_str().get_char(len - 2);
    let c3 = s.as_str().get_char(len - 1);
    c1 == '.' && (c2 == 'r' || c2 == 'R') && (c3 == 's' || c3 == 'S')
}

/// Join the command's arguments with single spaces.
fn render_command(args: &Vec<String>) -> (r: String)
    ensures
        r@ == rendered_command(args.deep_view()),
{
    let mut out = String::new();
    let n = args.len();
    let mut i: usize = 0;
    while i < n
        invariant
            i <= n,
            n == args@.len(),
            out@ == rendered_command_upto(args.deep_view(), i as int),
        decreases n - i,
    {
        if i > 0 {
            out.append(" ");
            proof {
                reveal_strlit(" ");
                assert(" "@ =~= seq![' ']);
            }
        }
        out.append(args[i].as_str());
        proof {
            assert(args.deep_view()[i as int] == args@[i as int]@);
            if i == 0 {
                assert(out@ =~= rendered_command_upto(args.deep_view(), 1));
            }
        }
        i += 1;
    }
    out
}

impl CustomExecutor {
    /// Inspect one command before it runs. Locate the output-directory flag
    /// and its value — absence of either is fatal for this invocation, the
    /// error rendering the command — pick the command's own working
    /// directory over the interceptor's fallback, and select the arguments
    /// that name source files (`is_rs_file_arg`: the `.rs` suffix,
    /// ASCII-case-insensitively), in order. Nothing is recorded yet.
    pub fn plan_invocation(&self, args: &Vec<String>, command_cwd: &Option<String>) -> (r: Result<
        InvocationPlan,
        CustomExecutorError,
    >)
        ensures
            match find_flag(args.deep_view(), out_dir_flag()) {
                None => r matches Err(CustomExecutorError::OutDirKeyMissing(msg)) && msg@
                    == rendered_command(args.deep_view()),
                Some(i) => if i + 1 >= args.deep_view().len() {
                    r matches Err(CustomExecutorError::OutDirValueMissing(msg)) && msg@
                        == rendered_command(args.deep_view())
                } else {
                    r matches Ok(plan) && plan.out_dir@ == args.deep_view()[i + 1]
                        && (match command_cwd {
                        Some(c) => plan.cwd@ == c@,
                        None => plan.cwd@ == self.cwd@,
                    }) && plan.rs_file_args.deep_view() == rs_args(args.deep_view())
                },
            },
    {
        let flag: String = "--out-dir".to_owned();
        let n = args.len();
        let out_dir_key_idx = match find_flag_index(args, &flag) {
            Some(k) => k,
            None => {
                return Err(CustomExecutorError::OutDirKeyMissing(render_command(args)));
            },
        };
        if out_dir_key_idx + 1 >= n {
            return Err(CustomExecutorError::OutDirValueMissing(render_command(args)));
        }
        let out_dir = args[out_dir_key_idx + 1].clone();
        let cwd = match command_cwd {
            Some(c) => c.clone(),
            None => self.cwd.clone(),
        };
        let mut rs_file_args: Vec<String> = Vec::new();
        let mut j: usize = 0;
        while j < n
            invariant
                j <= n,
                n == args@.len(),
                rs_file_args.deep_view() == rs_args_upto(args.deep_view(), j as int),
            decreases n - j,
        {
            if has_rs_suffix(&args[j]) {
                rs_file_args.push(args[j].clone());
            }
            proof {
                assert(args.deep_view()[j as int] == args@[j as int]@);
                assert(rs_file_args.deep_view() =~= rs_args_upto(
                    args.deep_view(),
                    j as int + 1,
                ));
            }
            j += 1;
        }
        Ok(InvocationPlan { out_dir, cwd, rs_file_args })
    }

    /// Report that every unit must be treated as out of date: the
    /// interceptor's facts are captured only when a unit actually runs, so a
    /// cached skip would leave its records missing.
    pub fn force_rebuild(&self) -> (r: bool)
        ensures
            r,
    {
        true
    }
}

/// Whether the list already holds this string.
fn contains_string(v: &Vec<String>, s: &String) -> (r: bool)
    ensures
        r == v.deep_view().contains(s@),
{
    let n = v.len();
    let mut i: usize = 0;
    while i < n
        invariant
            i <= n,
            n == v@.len(),
            forall|j: int| 0 <= j < i ==> v.deep_view()[j] != s@,
        decreases n - i,
    {
        proof {
            assert(v.deep_view()[i as int] == v@[i as int]@);
        }
        if v[i] == *s {
            proof {
                assert(v.deep_view()[i as int] == s@);
            }
            return true;
        }
        i += 1;
    }
    proof {
        assert(forall|j: int| 0 <= j < v.deep_view().len() ==> v.deep_view()[j] != s@);
    }
    false
}

impl Default for CustomExecutorInnerContext {
    /// A context with nothing recorded yet.
    fn default() -> (r: Self)
        ensures
            r.rs_file_args@.len() == 0,
            r.out_dir_args@.len() == 0,
            r.wf(),
    {
        let r = CustomExecutorInnerContext { rs_file_args: Vec::new(), out_dir_args: Vec::new() };
        proof {
            assert(r.wf());
        }
        r
    }
}

impl CustomExecutorInnerContext {
    /// Each set holds every path at most once.
    pub open spec fn wf(self) -> bool {
        &&& forall|i: int, j: int|
            0 <= i < j < self.rs_file_args.deep_view().len() ==> self.rs_file_args.deep_view()[i]
                != self.rs_file_args.deep_view()[j]
        &&& forall|i: int, j: int|
            0 <= i < j < self.out_dir_args.deep_view().len() ==> self.out_dir_args.deep_view()[i]
                != self.out_dir_args.deep_view()[j]
    }

    /// Insert one resolved source-file path; a path already present is not
    /// duplicated. Additions are monotonic: nothing is ever removed.
    pub fn insert_rs_file(&mut self, path: String)
        requires
            old(self).wf(),
        ensures
            final(self).wf(),
            final(self).rs_file_args.deep_view().to_set() == old(
                self,
            ).rs_file_args.deep_view().to_set().insert(path@),
            final(self).out_dir_args == old(self).out_dir_args,
    {
        if !contains_string(&self.rs_file_args, &path) {
            let ghost before = self.rs_file_args.deep_view();
            self.rs_file_args.push(path);
            proof {
                assert(self.rs_file_args.deep_view() =~= before.push(path@));
                lemma_push_to_set(before, path@);
            }
        } else {
            proof {
                lemma_present_to_set(self.rs_file_args.deep_view(), path@);
            }
        }
    }

    /// Insert one output directory; a directory already present is not
    /// duplicated. Additions are monotonic: nothing is ever removed.
    pub fn insert_out_dir(&mut self, out_dir: String)
        requires
            old(self).wf(),
        ensures
            final(self).wf(),
            final(self).out_dir_args.deep_view().to_set() == old(
                self,
            ).out_dir_args.deep_view().to_set().insert(out_dir@),
            final(self).rs_file_args == old(self).rs_file_args,
    {
        if !contains_string(&self.out_dir_args, &out_dir) {
            let ghost before = self.out_dir_args.deep_view();
            self.out_dir_args.push(out_dir);
            proof {
                assert(self.out_dir_args.deep_view() =~= before.push(out_dir@));
                lemma_push_to_set(before, out_dir@);
            }
        } else {
            proof {
                lemma_present_to_set(self.out_dir_args.deep_view(), out_dir@);
            }
        }
    }

    /// The critical-section body of one intercepted invocation: insert all
    /// of its resolved source paths and its output directory as one
    /// monotonic addition.
    pub fn record(&mut self, rs_paths: &Vec<String>, out_dir: String)
        requires
            old(self).wf(),
        ensures
            final(self).wf(),
            final(self).rs_file_args.deep_view().to_set() == old(
                self,
            ).rs_file_args.deep_view().to_set().union(rs_paths.deep_view().to_set()),
            final(self).out_dir_args.deep_view().to_set() == old(
                self,
            ).out_dir_args.deep_view().to_set().insert(out_dir@),
    {
        let n = rs_paths.len();
        let mut i: usize = 0;
        while i < n
            invariant
                i <= n,
                n == rs_paths@.len(),
                self.wf(),
                self.rs_file_args.deep_view().to_set() == old(
                    self,
                ).rs_file_args.deep_view().to_set().union(
                    rs_paths.deep_view().take(i as int).to_set(),
                ),
                self.out_dir_args == old(self).out_dir_args,
            decreases n - i,
        {
            let ghost set_before = self.rs_file_args.deep_view().to_set();
            self.insert_rs_file(rs_paths[i].clone());
            proof {
                assert(rs_paths.deep_view()[i as int] == rs_paths@[i as int]@);
                assert(rs_paths.deep_view().take(i as int + 1) =~= rs_paths.deep_view().take(
                    i as int,
                ).push(rs_paths.deep_view()[i as int]));
                lemma_push_to_set(rs_paths.deep_view().take(i as int), rs_paths.deep_view()[i as int]);
                assert(self.rs_file_args.deep_view().to_set() =~= old(
                    self,
                ).rs_file_args.deep_view().to_set().union(
                    rs_paths.deep_view().take(i as int + 1).to_set(),
                ));
            }
            i += 1;
        }
        proof {
            assert(rs_paths.deep_view().take(n as int) =~= rs_paths.deep_view());
        }
        self.insert_out_dir(out_dir);
    }
}

/// Pushing an element turns into inserting it into the set of contents.
proof fn lemma_push_to_set(s: Seq<Seq<char>>, x: Seq<char>)
    ensures
        s.push(x).to_set() == s.to_set().insert(x),
{
    assert forall|y: Seq<char>| s.push(x).to_set().contains(y) implies s.to_set().insert(
        x,
    ).contains(y) by {
        let i = choose|i: int| 0 <= i < s.push(x).len() && s.push(x)[i] == y;
        if i < s.len() {
            assert(s[i] == y);
        }
    }
    assert forall|y: Seq<char>| s.to_set().insert(x).contains(y) implies s.push(
        x,
    ).to_set().contains(y) by {
        if y == x {
            assert(s.push(x)[s.len() as int] == y);
        } else {
            let i = choose|i: int| 0 <= i < s.len() && s[i] == y;
            assert(s.push(x)[i] == y);
        }
    }
    assert(s.push(x).to_set() =~= s.to_set().insert(x));
}

/// Inserting an element already among the contents leaves the set as it is.
proof fn lemma_present_to_set(s: Seq<Seq<char>>, x: Seq<char>)
    requires
        s.contains(x),
    ensures
        s.to_set() == s.to_set().insert(x),
{
    assert(s.to_set().contains(x));
    assert(s.to_set() =~= s.to_set().insert(x));
}

/// Law: concurrent invocations commute. Whatever order two invocations'
/// records reach the shared context in, the resulting source-path set and
/// output-directory set are the same.
pub proof fn lemma_record_order_irrelevant(
    base_rs: Set<Seq<char>>,
    base_out: Set<Seq<char>>,
    rs_a: Set<Seq<char>>,
    out_a: Seq<char>,
    rs_b: Set<Seq<char>>,
    out_b: Seq<char>,
)
    ensures
        base_rs.union(rs_a).union(rs_b) == base_rs.union(rs_b).union(rs_a),
        base_out.insert(out_a).insert(out_b) == base_out.insert(out_b).insert(out_a),
{
    assert(base_rs.union(rs_a).union(rs_b) =~= base_rs.union(rs_b).union(rs_a));
    assert(base_out.insert(out_a).insert(out_b) =~= base_out.insert(out_b).insert(out_a));
}

} // verus!
