//! Backends, the registry that queries them as a group, the commands a backend
//! asks to run, and the rules that turn a finished tool into a result.
use vstd::prelude::*;

use crate::model::App;
use crate::text::{append_str, chars_of, own, same_text, string_of, trim, trim_range};

verus! {

broadcast use vstd::string::group_string_axioms;

/// Failure from a backend, carrying a human readable message.
#[derive(Debug, Clone, PartialEq, Eq)]
pub struct BackendError(pub String);

/// A backend that was available but could not be queried.
#[derive(Debug, Clone, PartialEq, Eq)]
pub struct BackendFailure {
    pub backend: &'static str,
    pub error: BackendError,
}

/// Results from scanning every available backend.
#[derive(Debug, Clone, Default, PartialEq, Eq)]
pub struct ListReport {
    pub apps: Vec<App>,
    pub failures: Vec<BackendFailure>,
}

/// A source of installed applications for one package format.
pub trait Backend: Send + Sync {
    /// Stable identifier for this backend, stored on every App it produces.
    fn id(&self) -> &'static str;

    /// Whether this backend's underlying tooling is present on the system.
    fn detect(&self) -> bool;

    /// List installed applications of this format.
    fn list(&self) -> Result<Vec<App>, BackendError>;

    /// Remove one installed application.
    fn remove(&self, app: &App) -> Result<(), BackendError>;
}

/// The elements of `s` whose flag in `keep` is set, in order.
pub open spec fn select<A>(s: Seq<A>, keep: Seq<bool>) -> Seq<A>
    decreases s.len(),
{
    if s.len() == 0 || keep.len() == 0 {
        seq![]
    } else if keep.last() {
        select(s.drop_last(), keep.drop_last()).push(s.last())
    } else {
        select(s.drop_last(), keep.drop_last())
    }
}

/// The apps of every successful listing, in order.
pub open spec fn report_apps(results: Seq<Result<Vec<App>, BackendError>>) -> Seq<App>
    decreases results.len(),
{
    if results.len() == 0 {
        seq![]
    } else {
        let prev = report_apps(results.drop_last());
        match results.last() {
            Ok(apps) => prev + apps@,
            Err(_) => prev,
        }
    }
}

/// One failure, naming its backend, for every failed listing, in order.
pub open spec fn report_failures(
    ids: Seq<&'static str>,
    results: Seq<Result<Vec<App>, BackendError>>,
) -> Seq<BackendFailure>
    decreases results.len(),
{
    if results.len() == 0 || ids.len() == 0 {
        seq![]
    } else {
        let prev = report_failures(ids.drop_last(), results.drop_last());
        match results.last() {
            Ok(_) => prev,
            Err(e) => prev.push(BackendFailure { backend: ids.last(), error: e }),
        }
    }
}

/// `k` is the first of `ids` that reads `id`.
pub open spec fn is_first_owner(ids: Seq<&'static str>, id: Seq<char>, k: int) -> bool {
    &&& 0 <= k < ids.len()
    &&& ids[k]@ == id
    &&& forall|j: int| 0 <= j < k ==> ids[j]@ != id
}

/// The position of the first of `ids` that reads `id`, if any.
pub open spec fn first_owner(ids: Seq<&'static str>, id: Seq<char>) -> Option<int> {
    if exists|k: int| is_first_owner(ids, id, k) {
        Some(choose|k: int| is_first_owner(ids, id, k))
    } else {
        None
    }
}

/// The message for an app whose backend is not registered.
pub open spec fn no_backend_message(backend: Seq<char>) -> Seq<char> {
    "no backend for '"@ + backend + "'"@
}


/// The number of failed listings.
pub open spec fn error_count(results: Seq<Result<Vec<App>, BackendError>>) -> nat
    decreases results.len(),
{
    if results.len() == 0 {
        0
    } else {
        error_count(results.drop_last()) + if results.last() is Err {
            1nat
        } else {
            0nat
        }
    }
}

/// A failing backend hides nothing: every app of every successful listing is
/// in the report.
pub proof fn law_failures_hide_nothing(results: Seq<Result<Vec<App>, BackendError>>, i: int, j: int)
    requires
        0 <= i < results.len(),
        results[i] is Ok,
        0 <= j < results[i]->Ok_0@.len(),
    ensures
        report_apps(results).contains(results[i]->Ok_0@[j]),
    decreases results.len(),
{
    let prev = report_apps(results.drop_last());
    if i == results.len() - 1 {
        let apps = results[i]->Ok_0@;
        assert(report_apps(results) == prev + apps);
        assert(report_apps(results)[prev.len() + j] == apps[j]);
    } else {
        law_failures_hide_nothing(results.drop_last(), i, j);
        let k = choose|k: int| 0 <= k < prev.len() && prev[k] == results[i]->Ok_0@[j];
        match results.last() {
            Ok(apps) => {
                assert(report_apps(results) == prev + apps@);
                assert(report_apps(results)[k] == prev[k]);
            },
            Err(_) => {},
        }
    }
}

/// Every failed listing is reported, once.
pub proof fn law_one_failure_per_error(
    ids: Seq<&'static str>,
    results: Seq<Result<Vec<App>, BackendError>>,
)
    requires
        ids.len() == results.len(),
    ensures
        report_failures(ids, results).len() == error_count(results),
    decreases results.len(),
{
    if results.len() > 0 {
        law_one_failure_per_error(ids.drop_last(), results.drop_last());
    }
}

/// The available backends are registered backends, in registration order:
/// what `select` keeps of a sequence comes from it.
pub proof fn law_selection_from_registered<A>(s: Seq<A>, keep: Seq<bool>, k: int)
    requires
        keep.len() == s.len(),
        0 <= k < select(s, keep).len(),
    ensures
        s.contains(select(s, keep)[k]),
    decreases s.len(),
{
    let prev = select(s.drop_last(), keep.drop_last());
    if keep.last() && k == prev.len() {
        assert(s[s.len() - 1] == s.last());
    } else {
        law_selection_from_registered(s.drop_last(), keep.drop_last(), k);
        let j = choose|j: int| 0 <= j < s.drop_last().len() && s.drop_last()[j] == prev[k];
        assert(s[j] == prev[k]);
    }
}

impl ListReport {
    /// The report for backends `ids` whose listings gave `results`: the apps
    /// of every successful listing in order, and a failure for every error.
    pub fn from_results(ids: Vec<&'static str>, results: Vec<Result<Vec<App>, BackendError>>) -> (r:
        ListReport)
        requires
            ids@.len() == results@.len(),
        ensures
            r.apps@ == report_apps(results@),
            r.failures@ == report_failures(ids@, results@),
    {
        let ghost all_ids = ids@;
        let ghost all_results = results@;
        let mut apps: Vec<App> = Vec::new();
        let mut failures: Vec<BackendFailure> = Vec::new();
        let mut ids = ids;
        let mut results = results;
        let n = results.len();
        let mut i: usize = 0;
        while i < n
            invariant
                n == all_results.len() == all_ids.len(),
                i <= n,
                ids@ == all_ids.skip(i as int),
                results@ == all_results.skip(i as int),
                apps@ == report_apps(all_results.take(i as int)),
                failures@ == report_failures(all_ids.take(i as int), all_results.take(i as int)),
            decreases n - i,
        {
            assert(results@.len() > 0);
            let id = ids.remove(0);
            let result = results.remove(0);
            assert(all_ids.skip(i as int).drop_first() =~= all_ids.skip(i + 1));
            assert(all_results.skip(i as int).drop_first() =~= all_results.skip(i + 1));
            assert(all_ids.take(i + 1).drop_last() =~= all_ids.take(i as int));
            assert(all_results.take(i + 1).drop_last() =~= all_results.take(i as int));
            assert(all_results.take(i + 1).last() == result);
            assert(all_ids.take(i + 1).last() == id);
            match result {
                Ok(found) => {
                    let mut found = found;
                    apps.append(&mut found);
                },
                Err(error) => {
                    failures.push(BackendFailure { backend: id, error });
                },
            }
            i = i + 1;
        }
        assert(all_results.take(n as int) =~= all_results);
        assert(all_ids.take(n as int) =~= all_ids);
        ListReport { apps, failures }
    }
}

/// Holds every backend and queries them as a group.
pub struct Registry<B: Backend> {
    backends: Vec<Box<B>>,
}

impl<B: Backend> Registry<B> {
    /// The registered backends, in the order they were added.
    pub closed spec fn entries(&self) -> Seq<B> {
        self.backends@.map_values(|b: Box<B>| *b)
    }

    /// `ids` are what `id` answered for the first `ids.len()` registered
    /// backends, in order.
    pub open spec fn read_ids(&self, ids: Seq<&'static str>) -> bool {
        &&& ids.len() <= self.entries().len()
        &&& forall|i: int|
            0 <= i < ids.len() ==> call_ensures(B::id, (&self.entries()[i],), #[trigger] ids[i])
    }

    /// An empty registry.
    pub fn new() -> (r: Self)
        ensures
            r.entries().len() == 0,
    {
        Registry { backends: Vec::new() }
    }

    /// Registers one more backend, after the others. Nothing is asked of it.
    pub fn add(&mut self, backend: Box<B>)
        ensures
            final(self).entries() == old(self).entries().push(*backend),
    {
        let ghost b = *backend;
        self.backends.push(backend);
        assert(self.backends@.map_values(|b: Box<B>| *b) =~= old(self).backends@.map_values(
            |b: Box<B>| *b,
        ).push(b));
    }

    /// The identifiers of the registered backends, asked of each in order.
    pub fn backend_ids(&self) -> (r: Vec<&'static str>)
        ensures
            r@.len() == self.entries().len(),
            self.read_ids(r@),
    {
        let ghost all = self.entries();
        let mut out: Vec<&'static str> = Vec::new();
        let mut i: usize = 0;
        while i < self.backends.len()
            invariant
                all == self.backends@.map_values(|b: Box<B>| *b),
                i <= self.backends@.len(),
                out@.len() == i,
                forall|j: int| 0 <= j < i ==> call_ensures(B::id, (&all[j],), #[trigger] out@[j]),
            decreases self.backends@.len() - i,
        {
            let id = self.backends[i].id();
            assert(all[i as int] == *self.backends@[i as int]);
            out.push(id);
            i = i + 1;
        }
        out
    }

    /// The backends whose flag in `present` is set, in registration order.
    pub fn select_available(&self, present: &Vec<bool>) -> (r: Vec<&B>)
        requires
            present@.len() == self.entries().len(),
        ensures
            r@.map_values(|b: &B| *b) == select(self.entries(), present@),
    {
        let ghost all = self.entries();
        let mut out: Vec<&B> = Vec::new();
        let mut i: usize = 0;
        while i < self.backends.len()
            invariant
                all == self.backends@.map_values(|b: Box<B>| *b),
                present@.len() == all.len(),
                i <= self.backends@.len(),
                out@.map_values(|b: &B| *b) == select(all.take(i as int), present@.take(i as int)),
            decreases self.backends@.len() - i,
        {
            let ghost before = out@.map_values(|b: &B| *b);
            assert(all.take(i + 1).drop_last() =~= all.take(i as int));
            assert(present@.take(i + 1).drop_last() =~= present@.take(i as int));
            if present[i] {
                out.push(&*self.backends[i]);
                assert(out@.map_values(|b: &B| *b) =~= before.push(all[i as int]));
            }
            i = i + 1;
        }
        assert(all.take(i as int) =~= all);
        assert(present@.take(i as int) =~= present@);
        out
    }

    /// What `detect` answered for each registered backend, in order.
    pub open spec fn detected(&self, keep: Seq<bool>) -> bool {
        &&& keep.len() == self.entries().len()
        &&& forall|i: int|
            0 <= i < keep.len() ==> call_ensures(B::detect, (&self.entries()[i],), #[trigger] keep[i])
    }

    /// Asks each registered backend, in order, whether it is present.
    fn detect_all(&self) -> (r: Vec<bool>)
        ensures
            self.detected(r@),
    {
        let ghost all = self.entries();
        let mut present: Vec<bool> = Vec::new();
        let mut i: usize = 0;
        while i < self.backends.len()
            invariant
                all == self.backends@.map_values(|b: Box<B>| *b),
                i <= self.backends@.len(),
                present@.len() == i,
                forall|j: int|
                    0 <= j < i ==> call_ensures(B::detect, (&all[j],), #[trigger] present@[j]),
            decreases self.backends@.len() - i,
        {
            let d = self.backends[i].detect();
            assert(all[i as int] == *self.backends@[i as int]);
            present.push(d);
            i = i + 1;
        }
        present
    }

    /// Backends whose tooling is present on this system: each registered
    /// backend whose `detect` answered true, in registration order.
    pub fn available(&self) -> (r: Vec<&B>)
        ensures
            exists|keep: Seq<bool>|
                #![trigger select(self.entries(), keep)]
                self.detected(keep) && r@.map_values(|b: &B| *b) == select(self.entries(), keep),
    {
        let present = self.detect_all();
        let r = self.select_available(&present);
        assert(r@.map_values(|b: &B| *b) == select(self.entries(), present@));
        r
    }

    /// All installed applications across every available backend: `list` is
    /// asked of each backend whose `detect` answered true, in order, and a
    /// backend whose listing fails is asked its `id` for the failure. A
    /// backend that fails to list hides nothing else.
    pub fn list_all(&self) -> (r: ListReport)
        ensures
            exists|
                keep: Seq<bool>,
                results: Seq<Result<Vec<App>, BackendError>>,
                ids: Seq<&'static str>,
            |
                #![trigger select(self.entries(), keep), report_apps(results), report_failures(ids, results)]
                {
                    &&& self.detected(keep)
                    &&& results.len() == select(self.entries(), keep).len()
                    &&& ids.len() == results.len()
                    &&& forall|j: int|
                        0 <= j < results.len() ==> call_ensures(
                            B::list,
                            (&select(self.entries(), keep)[j],),
                            #[trigger] results[j],
                        )
                    &&& forall|j: int|
                        0 <= j < results.len() && results[j] is Err ==> call_ensures(
                            B::id,
                            (&select(self.entries(), keep)[j],),
                            #[trigger] ids[j],
                        )
                    &&& r.apps@ == report_apps(results)
                    &&& r.failures@ == report_failures(ids, results)
                },
    {
        let ghost all = self.entries();
        let present = self.detect_all();
        let mut ids: Vec<&'static str> = Vec::new();
        let mut results: Vec<Result<Vec<App>, BackendError>> = Vec::new();
        let mut i: usize = 0;
        while i < self.backends.len()
            invariant
                all == self.backends@.map_values(|b: Box<B>| *b),
                present@.len() == self.backends@.len(),
                i <= self.backends@.len(),
                results@.len() == select(all.take(i as int), present@.take(i as int)).len(),
                results@.len() == ids@.len(),
                forall|j: int|
                    0 <= j < results@.len() ==> call_ensures(
                        B::list,
                        (&select(all.take(i as int), present@.take(i as int))[j],),
                        #[trigger] results@[j],
                    ),
                forall|j: int|
                    0 <= j < results@.len() && results@[j] is Err ==> call_ensures(
                        B::id,
                        (&select(all.take(i as int), present@.take(i as int))[j],),
                        #[trigger] ids@[j],
                    ),
            decreases self.backends@.len() - i,
        {
            let ghost sel = select(all.take(i as int), present@.take(i as int));
            assert(all.take(i + 1).drop_last() =~= all.take(i as int));
            assert(present@.take(i + 1).drop_last() =~= present@.take(i as int));
            assert(all.take(i + 1).last() == all[i as int]);
            if present[i] {
                assert(all[i as int] == *self.backends@[i as int]);
                let listed = self.backends[i].list();
                let id = match &listed {
                    Ok(_) => "",
                    Err(_) => self.backends[i].id(),
                };
                ids.push(id);
                results.push(listed);
                assert(select(all.take(i + 1), present@.take(i + 1)) == sel.push(all[i as int]));
            } else {
                assert(select(all.take(i + 1), present@.take(i + 1)) == sel);
            }
            i = i + 1;
        }
        assert(all.take(i as int) =~= all);
        assert(present@.take(i as int) =~= present@);
        let ghost all_results = results@;
        let ghost all_ids = ids@;
        let report = ListReport::from_results(ids, results);
        assert(report.apps@ == report_apps(all_results));
        assert(report.failures@ == report_failures(all_ids, all_results));
        report
    }

    /// Remove an app by routing to the backend that owns it: each registered
    /// backend is asked its `id` in order until one reads the app's backend,
    /// and that one removes the app; when none does, the removal fails.
    pub fn remove(&self, app: &App) -> (r: Result<(), BackendError>)
        ensures
            exists|ids: Seq<&'static str>|
                #![trigger self.read_ids(ids)]
                {
                    &&& self.read_ids(ids)
                    &&& match first_owner(ids, app.backend@) {
                        Some(k) => k == ids.len() - 1 && call_ensures(
                            B::remove,
                            (&self.entries()[k], app),
                            r,
                        ),
                        None => ids.len() == self.entries().len() && (r matches Err(e) && e.0@
                            == no_backend_message(app.backend@)),
                    }
                },
    {
        let ghost all = self.entries();
        let ghost mut ids: Seq<&'static str> = seq![];
        let mut i: usize = 0;
        while i < self.backends.len()
            invariant
                all == self.backends@.map_values(|b: Box<B>| *b),
                i <= self.backends@.len(),
                ids.len() == i,
                forall|j: int| 0 <= j < i ==> call_ensures(B::id, (&all[j],), #[trigger] ids[j]),
                forall|j: int| 0 <= j < i ==> ids[j]@ != app.backend@,
            decreases self.backends@.len() - i,
        {
            let id = self.backends[i].id();
            assert(all[i as int] == *self.backends@[i as int]);
            proof {
                ids = ids.push(id);
            }
            if same_text(id, app.backend) {
                proof {
                    assert(is_first_owner(ids, app.backend@, i as int));
                    let c = choose|c: int| is_first_owner(ids, app.backend@, c);
                    if c < i {
                        assert(ids[c]@ != app.backend@);
                    } else if c > i {
                        assert(ids[i as int]@ == app.backend@);
                    }
                    assert(self.read_ids(ids));
                }
                return self.backends[i].remove(app);
            }
            i = i + 1;
        }
        proof {
            if exists|c: int| is_first_owner(ids, app.backend@, c) {
                let c = choose|c: int| is_first_owner(ids, app.backend@, c);
                assert(ids[c]@ != app.backend@);
            }
            assert(self.read_ids(ids));
        }
        let mut message = own("no backend for '");
        append_str(&mut message, app.backend);
        append_str(&mut message, "'");
        Err(BackendError(message))
    }
}

impl<B: Backend> Default for Registry<B> {
    /// An empty registry.
    fn default() -> (r: Self)
        ensures
            r.entries().len() == 0,
    {
        Self::new()
    }
}

// ---------------------------------------------------------------------------
// Finished processes
// ---------------------------------------------------------------------------

/// The message for a failed action, with the tool's trimmed error output.
pub open spec fn failure_message(action: Seq<char>, stderr: Seq<char>) -> Seq<char> {
    action + " failed: "@ + trim(stderr)
}

/// The message for a failed action, with the tool's error output when it said anything.
pub open spec fn process_message(action: Seq<char>, stderr: Seq<char>) -> Seq<char> {
    if trim(stderr).len() == 0 {
        action + " failed"@
    } else {
        failure_message(action, stderr)
    }
}

/// The message for a tool that could not be started.
pub open spec fn spawn_message(program: Seq<char>, detail: Seq<char>) -> Seq<char> {
    "failed to run "@ + program + ": "@ + detail
}

/// The message when a privileged removal was refused or the tool was missing.
pub open spec fn cancelled_message() -> Seq<char> {
    "removal failed or was cancelled"@
}

/// `action failed: <trimmed stderr>`.
pub fn failure(action: &str, stderr: &str) -> (r: BackendError)
    ensures
        r.0@ == failure_message(action@, stderr@),
{
    let err = chars_of(stderr);
    let (a, b) = trim_range(&err, 0, err.len());
    assert(err@.subrange(0, err@.len() as int) =~= err@);
    let mut message = own(action);
    append_str(&mut message, " failed: ");
    let detail = string_of(&err, a, b);
    append_str(&mut message, detail.as_str());
    BackendError(message)
}

/// Turn a failed child process into an error that keeps useful diagnostics.
pub fn process_error(action: &str, stderr: &str) -> (r: BackendError)
    ensures
        r.0@ == process_message(action@, stderr@),
{
    let err = chars_of(stderr);
    let (a, b) = trim_range(&err, 0, err.len());
    assert(err@.subrange(0, err@.len() as int) =~= err@);
    if a == b {
        let mut message = own(action);
        append_str(&mut message, " failed");
        BackendError(message)
    } else {
        failure(action, stderr)
    }
}

/// The error for a tool that could not be started; `detail` says why.
pub fn spawn_error(program: &str, detail: &str) -> (r: BackendError)
    ensures
        r.0@ == spawn_message(program@, detail@),
{
    let mut message = own("failed to run ");
    append_str(&mut message, program);
    append_str(&mut message, ": ");
    append_str(&mut message, detail);
    BackendError(message)
}

/// Whether a finished tool counts as having worked: it succeeded, or, where
/// "nothing matched" is a valid answer, it exited with code 1.
pub fn exit_accepted(success: bool, code: Option<i32>, allow_missing: bool) -> (r: bool)
    ensures
        r == (success || (allow_missing && code == Some(1i32))),
{
    success || (allow_missing && match code {
        Some(c) => c == 1,
        None => false,
    })
}

/// The captured output of a finished tool, or the error naming the tool.
pub fn capture_result(program: &str, accepted: bool, stderr: &str, stdout: String) -> (r: Result<
    String,
    BackendError,
>)
    ensures
        accepted ==> r == Ok::<String, BackendError>(stdout),
        !accepted ==> (r matches Err(e) && e.0@ == failure_message(program@, stderr@)),
{
    if accepted {
        Ok(stdout)
    } else {
        Err(failure(program, stderr))
    }
}

/// The result of a removal run through `pkexec`: exit codes 126 and 127 mean
/// the authorization was refused or the tool is missing.
pub fn privileged_result(success: bool, code: Option<i32>, stderr: &str) -> (r: Result<(), BackendError>)
    ensures
        success ==> r is Ok,
        !success && (code == Some(126i32) || code == Some(127i32)) ==> (r matches Err(e) && e.0@
            == cancelled_message()),
        !success && !(code == Some(126i32) || code == Some(127i32)) ==> (r matches Err(e) && e.0@
            == process_message("privileged package removal"@, stderr@)),
{
    if success {
        Ok(())
    } else if code == Some(126i32) || code == Some(127i32) {
        Err(BackendError(own("removal failed or was cancelled")))
    } else {
        Err(process_error("privileged package removal", stderr))
    }
}

/// The result of a finished removal tool: done when it succeeded, else an
/// error that keeps the tool's diagnostics under `action`.
pub fn removal_result(action: &str, success: bool, stderr: &str) -> (r: Result<(), BackendError>)
    ensures
        success ==> r is Ok,
        !success ==> (r matches Err(e) && e.0@ == process_message(action@, stderr@)),
{
    if success {
        Ok(())
    } else {
        Err(process_error(action, stderr))
    }
}

// ---------------------------------------------------------------------------
// Commands to run
// ---------------------------------------------------------------------------

/// A program to run, with its arguments.
#[derive(Debug, Clone, PartialEq, Eq)]
pub struct CommandLine {
    pub program: String,
    pub args: Vec<String>,
}

impl CommandLine {
    /// The words of the command line: the program, then each argument.
    pub open spec fn argv(&self) -> Seq<Seq<char>> {
        seq![self.program@] + self.args@.map_values(|a: String| a@)
    }
}

/// The text of each of `s`, in order.
pub open spec fn texts(s: Seq<&str>) -> Seq<Seq<char>> {
    s.map_values(|a: &str| a@)
}

/// The command line whose words are `words`: the first is the program.
pub fn command_line(words: &Vec<&str>) -> (r: CommandLine)
    requires
        words@.len() > 0,
    ensures
        r.argv() == texts(words@),
{
    let program = own(words[0]);
    let mut args: Vec<String> = Vec::new();
    let mut i: usize = 1;
    while i < words.len()
        invariant
            1 <= i <= words@.len(),
            args@.map_values(|a: String| a@) == texts(words@).subrange(1, i as int),
        decreases words@.len() - i,
    {
        let ghost before = args@;
        args.push(own(words[i]));
        assert(args@.map_values(|a: String| a@) =~= before.map_values(|a: String| a@).push(
            words@[i as int]@,
        ));
        assert(texts(words@).subrange(1, i + 1) =~= texts(words@).subrange(1, i as int).push(
            words@[i as int]@,
        ));
        i = i + 1;
    }
    let r = CommandLine { program, args };
    assert(r.argv() =~= texts(words@));
    r
}

/// A tool to run, and the action that names it in the message when it fails.
#[derive(Debug, Clone, PartialEq, Eq)]
pub struct ToolRun {
    pub command: CommandLine,
    pub action: String,
}

/// A tool run whose command has the words `words` and whose failures are
/// reported as `action`.
pub fn tool_run(words: &Vec<&str>, action: String) -> (r: ToolRun)
    requires
        words@.len() > 0,
    ensures
        r.command.argv() == texts(words@),
        r.action@ == action@,
{
    ToolRun { command: command_line(words), action }
}

/// `prefix` followed by `rest`, as an owned string.
pub fn joined(prefix: &str, rest: &str) -> (r: String)
    ensures
        r@ == prefix@ + rest@,
{
    let mut s = own(prefix);
    append_str(&mut s, rest);
    s
}

} // verus!
