//! Application state and the checks that guard session operations.

use vstd::prelude::*;

use crate::config::{Config, texts};
use crate::context::pagination::PaginationCache;
use crate::dap::state_machine::{SessionPhase, SessionState};
use crate::error::AppError;
use crate::json::str_eq;
use crate::text::{chars_of, push_str, push_chars, string_of, joined};

verus! {

/// Whether `needle` occurs in `t` as a contiguous run.
pub open spec fn contains_text(t: Seq<char>, needle: Seq<char>) -> bool {
    exists|i: int| 0 <= i && i + needle.len() <= t.len() && #[trigger] t.subrange(i, i + needle.len()) == needle
}

/// The last `/`-separated segment of `t[..end]` that is neither empty nor `.`;
/// empty when there is none.
pub open spec fn name_before(t: Seq<char>, end: int) -> Seq<char>
    decreases end,
{
    if end <= 0 || end > t.len() {
        Seq::empty()
    } else {
        match last_slash(t, end) {
            None => {
                let seg = t.take(end);
                if seg == "."@ {
                    Seq::empty()
                } else {
                    seg
                }
            },
            Some(k) => {
                proof {
                    lemma_last_slash(t, end);
                }
                let seg = t.subrange(k + 1, end);
                if seg.len() == 0 || seg == "."@ {
                    name_before(t, k)
                } else {
                    seg
                }
            },
        }
    }
}

/// The base name of a path: its last segment that is neither empty nor `.`,
/// or empty when there is none (what `Path::file_name` gives, absent `..`).
pub open spec fn base_name(t: Seq<char>) -> Seq<char> {
    name_before(t, t.len() as int)
}

/// The position of the last `/` before `end`.
pub open spec fn last_slash(t: Seq<char>, end: int) -> Option<int>
    decreases end,
{
    if end <= 0 || end > t.len() {
        None
    } else if t[end - 1] == '/' {
        Some(end - 1)
    } else {
        last_slash(t, end - 1)
    }
}

/// The verdict on an adapter path: allowed when the allow-list is empty,
/// refused when the path contains `..`, else allowed exactly when its base
/// name is on the list.
pub open spec fn adapter_allowed(allowed: Seq<Seq<char>>, path: Seq<char>) -> bool {
    allowed.len() == 0 || (!contains_text(path, ".."@) && allowed.contains(base_name(path)))
}

/// `last_slash` finds the last `/` before `end`, and fails exactly when there is none.
pub proof fn lemma_last_slash(t: Seq<char>, end: int)
    requires
        0 <= end <= t.len(),
    ensures
        last_slash(t, end) matches Some(k) ==> 0 <= k < end && t[k] == '/' && forall|j: int|
            k < j < end ==> t[j] != '/',
        last_slash(t, end) is None ==> forall|j: int| 0 <= j < end ==> t[j] != '/',
    decreases end,
{
    if end > 0 && t[end - 1] != '/' {
        lemma_last_slash(t, end - 1);
    }
}

fn contains_dot_dot(t: &Vec<char>) -> (b: bool)
    ensures
        b == contains_text(t@, ".."@),
{
    proof {
        reveal_strlit("..");
    }
    let ghost dd: Seq<char> = seq!['.', '.'];
    assert(".."@ == dd);
    let n = t.len();
    let mut i: usize = 1;
    while i < n
        invariant
            n == t@.len(),
            1 <= i,
            dd == seq!['.', '.'],
            ".."@ == dd,
            forall|j: int| 0 <= j && j + 1 < i && j + 1 < n ==> !(#[trigger] t@[j] == '.' && t@[j + 1] == '.'),
        decreases n - i,
    {
        if t[i - 1] == '.' && t[i] == '.' {
            assert(t@.subrange(i - 1, i + 1) =~= dd);
            assert(t@.subrange(i - 1, (i - 1) + ".."@.len()) == ".."@);
            return true;
        }
        i = i + 1;
    }
    assert forall|j: int| 0 <= j && j + 2 <= n implies #[trigger] t@.subrange(j, j + 2) != ".."@ by {
        if t@.subrange(j, j + 2) == ".."@ {
            assert(t@.subrange(j, j + 2)[0] == t@[j]);
            assert(t@.subrange(j, j + 2)[1] == t@[j + 1]);
            assert(dd[0] == '.');
        }
    }
    false
}

fn is_dot(seg: &Vec<char>) -> (b: bool)
    ensures
        b == (seg@ == "."@),
{
    proof {
        reveal_strlit(".");
    }
    if seg.len() == 1 && seg[0] == '.' {
        assert(seg@ =~= "."@);
        true
    } else {
        proof {
            if seg@ == "."@ {
                assert(seg@[0] == '.');
            }
        }
        false
    }
}

/// The base name of a path (see [`base_name`]).
pub fn path_base_name(t: &Vec<char>) -> (r: Vec<char>)
    ensures
        r@ == base_name(t@),
{
    let mut end = t.len();
    loop
        invariant
            end <= t@.len(),
            base_name(t@) == name_before(t@, end as int),
        decreases end,
    {
        if end == 0 {
            return Vec::new();
        }
        let mut k = end;
        while k > 0 && t[k - 1] != '/'
            invariant
                k <= end <= t@.len(),
                forall|j: int| k <= j < end ==> t@[j] != '/',
            decreases k,
        {
            k = k - 1;
        }
        proof {
            lemma_last_slash(t@, end as int);
        }
        if k == 0 {
            assert(last_slash(t@, end as int) is None);
            let seg = crate::dap::header::sub_chars(t, 0, end);
            assert(seg@ == t@.take(end as int));
            if is_dot(&seg) {
                return Vec::new();
            }
            return seg;
        }
        assert(last_slash(t@, end as int) == Some(k - 1));
        let seg = crate::dap::header::sub_chars(t, k, end);
        if seg.len() == 0 || is_dot(&seg) {
            end = k - 1;
        } else {
            return seg;
        }
    }
}

/// `items` joined with `sep` (std `join`).
pub fn join_strings(items: &Vec<String>, sep: &str) -> (r: String)
    ensures
        r@ == joined(texts(items@), sep@),
{
    let mut out: Vec<char> = Vec::new();
    let sep_chars = chars_of(sep);
    for i in 0..items.len()
        invariant
            sep_chars@ == sep@,
            out@ == joined(texts(items@).take(i as int), sep@),
    {
        let ghost prev = texts(items@).take(i as int);
        if i > 0 {
            push_chars(&mut out, &sep_chars);
        }
        push_str(&mut out, items[i].as_str());
        proof {
            let next = texts(items@).take(i + 1);
            assert(next.drop_last() == prev);
            assert(next.last() == items@[i as int]@);
            if i == 0 {
                assert(next.len() == 1);
            }
        }
    }
    assert(texts(items@).take(items.len() as int) == texts(items@));
    string_of(&out)
}

/// Whether `name` is one of `items`.
pub(crate) fn contains_string(items: &Vec<String>, name: &Vec<char>) -> (b: bool)
    ensures
        b == texts(items@).contains(name@),
{
    let s = string_of(name);
    for i in 0..items.len()
        invariant
            s@ == name@,
            forall|j: int| 0 <= j < i ==> items@[j]@ != name@,
    {
        if str_eq(items[i].as_str(), s.as_str()) {
            assert(texts(items@)[i as int] == name@);
            return true;
        }
    }
    assert forall|j: int| 0 <= j < items@.len() implies texts(items@)[j] != name@ by {
        assert(texts(items@)[j] == items@[j]@);
    }
    false
}

/// The shared, lock-free part of the server state: configuration and the
/// pagination cache.
pub struct AppState {
    pub config: Config,
    pub pagination_cache: PaginationCache,
}

impl AppState {
    /// State for `config`, with an empty pagination cache sized by it.
    pub fn new(config: Config) -> (s: Self)
        ensures
            s.config == config,
            s.pagination_cache.wf(),
            s.pagination_cache@.entries.len() == 0,
            s.pagination_cache@.max_entries == config.pagination_cache_max_entries,
            s.pagination_cache@.ttl_secs == config.pagination_cache_ttl_secs,
    {
        let cache = PaginationCache::new(
            config.pagination_cache_max_entries,
            config.pagination_cache_ttl_secs,
        );
        AppState { config, pagination_cache: cache }
    }

    /// Validate that `adapter_path` is on the configured allow-list.
    /// If the allow-list is empty, all adapters are allowed (escape hatch).
    pub fn validate_adapter_path(&self, adapter_path: &str) -> (r: Result<(), AppError>)
        ensures
            r is Ok <==> adapter_allowed(texts(self.config.allowed_adapters@), adapter_path@),
            r matches Err(e) ==> e matches AppError::UnauthorizedAdapter(p, a) && p@
                == adapter_path@ && a@ == joined(texts(self.config.allowed_adapters@), ", "@),
    {
        let allowed = &self.config.allowed_adapters;
        if allowed.len() == 0 {
            return Ok(());
        }
        let path = chars_of(adapter_path);
        if contains_dot_dot(&path) {
            return Err(AppError::UnauthorizedAdapter(adapter_path.to_owned(), join_strings(allowed, ", ")));
        }
        let base = path_base_name(&path);
        if contains_string(allowed, &base) {
            Ok(())
        } else {
            Err(AppError::UnauthorizedAdapter(adapter_path.to_owned(), join_strings(allowed, ", ")))
        }
    }
}

/// The verdict on a phase requirement: `current` is the session's phase,
/// `None` when no session is active.
pub open spec fn phase_check(current: Option<SessionPhase>, allowed: Seq<SessionPhase>) -> bool {
    current matches Some(p) && allowed.contains(p)
}

/// The names of `phases`, in order.
pub open spec fn phase_names(phases: Seq<SessionPhase>) -> Seq<Seq<char>> {
    phases.map_values(|p: SessionPhase| p.name_text())
}

/// Assert that a session is active and in one of the allowed phases.
pub fn require_phase(current: Option<SessionPhase>, allowed: &[SessionPhase]) -> (r: Result<(), AppError>)
    ensures
        r is Ok <==> phase_check(current, allowed@),
        current is None ==> r matches Err(AppError::NoSession),
        current matches Some(p) && !allowed@.contains(p) ==> (r matches Err(AppError::InvalidState { from, to })
            && from@ == current->Some_0.name_text() && to@ == "one of ["@ + joined(phase_names(allowed@), ", "@) + "]"@),
{
    let p = match current {
        None => {
            return Err(AppError::NoSession);
        },
        Some(p) => p,
    };
    for i in 0..allowed.len()
        invariant
            current == Some(p),
            forall|j: int| 0 <= j < i ==> allowed@[j] != p,
    {
        if allowed[i] == p {
            assert(allowed@[i as int] == p);
            return Ok(());
        }
    }
    let ghost names = phase_names(allowed@);
    let mut to: Vec<char> = Vec::new();
    push_str(&mut to, "one of [");
    let ghost head = to@;
    for i in 0..allowed.len()
        invariant
            names == phase_names(allowed@),
            to@ == head + joined(names.take(i as int), ", "@),
    {
        if i > 0 {
            push_str(&mut to, ", ");
        }
        let name = allowed[i].to_string();
        push_str(&mut to, name.as_str());
        proof {
            let t = names.take(i + 1);
            assert(t.drop_last() =~= names.take(i as int));
            assert(t.last() == allowed@[i as int].name_text());
            if i == 0 {
                assert(joined(names.take(0), ", "@) == Seq::<char>::empty());
                assert(to@ =~= head + joined(t, ", "@));
            }
        }
    }
    assert(names.take(allowed@.len() as int) =~= names);
    push_str(&mut to, "]");
    Err(AppError::InvalidState { from: p.to_string(), to: string_of(&to) })
}

/// Assert that no session is currently active.
pub fn require_no_session(session_active: bool) -> (r: Result<(), AppError>)
    ensures
        r is Ok <==> !session_active,
        session_active ==> r matches Err(AppError::SessionActive),
{
    if session_active {
        Err(AppError::SessionActive)
    } else {
        Ok(())
    }
}

/// Assert that a session is active.
pub fn require_session(session_active: bool) -> (r: Result<(), AppError>)
    ensures
        r is Ok <==> session_active,
        !session_active ==> r matches Err(AppError::NoSession),
{
    if session_active {
        Ok(())
    } else {
        Err(AppError::NoSession)
    }
}

/// The lifecycle state of a session that starts now: refused while another
/// session is active; otherwise a fresh state moved on to `Initializing`.
pub fn try_start_session(session_active: bool) -> (r: Result<SessionState, AppError>)
    ensures
        session_active ==> r matches Err(AppError::SessionActive),
        !session_active ==> (r matches Ok(s) && s@ == SessionPhase::Initializing),
{
    if session_active {
        return Err(AppError::SessionActive);
    }
    let mut session = SessionState::new();
    match session.transition(SessionPhase::Initializing) {
        Ok(()) => Ok(session),
        Err(e) => Err(e),
    }
}

/// The last `/` before `end` is at `k` when `t[k]` is one and none follows it.
proof fn lemma_last_slash_at(t: Seq<char>, end: int, k: int)
    requires
        0 <= k < end <= t.len(),
        t[k] == '/',
        forall|j: int| k < j < end ==> t[j] != '/',
    ensures
        last_slash(t, end) == Some(k),
    decreases end,
{
    if end - 1 != k {
        lemma_last_slash_at(t, end - 1, k);
    }
}

/// Whether `t` holds no `/`.
pub open spec fn no_slash(t: Seq<char>) -> bool {
    forall|j: int| 0 <= j < t.len() ==> t[j] != '/'
}

/// A plain adapter name: non-empty, not `.`, without `/` or `..`.
pub open spec fn plain_name(name: Seq<char>) -> bool {
    name.len() > 0 && name != "."@ && no_slash(name) && !contains_text(name, ".."@)
}

/// A listed adapter is allowed both by its bare name and by a path to it
/// through any directory that does not climb with `..`.
pub proof fn lemma_listed_adapter_allowed(allowed: Seq<Seq<char>>, dir: Seq<char>, name: Seq<char>)
    requires
        allowed.contains(name),
        plain_name(name),
        !contains_text(dir, ".."@),
    ensures
        adapter_allowed(allowed, name),
        adapter_allowed(allowed, dir + "/"@ + name),
{
    reveal_strlit("/");
    reveal_strlit("..");
    reveal_strlit(".");
    lemma_last_slash(name, name.len() as int);
    assert(name.take(name.len() as int) =~= name);
    assert(base_name(name) == name);
    let t = dir + "/"@ + name;
    let k = dir.len() as int;
    assert(t[k] == '/');
    assert forall|j: int| k < j < t.len() implies t[j] != '/' by {
        assert(t[j] == name[j - k - 1]);
    }
    lemma_last_slash_at(t, t.len() as int, k);
    assert(t.subrange(k + 1, t.len() as int) =~= name);
    assert(base_name(t) == name);
    assert(!contains_text(t, ".."@)) by {
        if contains_text(t, ".."@) {
            let i = choose|i: int| 0 <= i && i + ".."@.len() <= t.len() && #[trigger] t.subrange(i, i + ".."@.len()) == ".."@;
            assert(t.subrange(i, i + 2)[0] == '.' && t.subrange(i, i + 2)[1] == '.');
            assert(t[i] == '.' && t[i + 1] == '.');
            assert(".."@.len() == 2);
            if i + 1 < k {
                assert(dir.subrange(i, i + ".."@.len()) =~= ".."@);
                assert(contains_text(dir, ".."@));
            } else if i > k {
                let m = i - k - 1;
                assert(name.subrange(m, m + ".."@.len()) =~= ".."@);
                assert(contains_text(name, ".."@));
            } else if i == k {
                assert(t[k] == '/');
            } else {
                assert(t[i + 1] == '/');
            }
        }
    }
}

/// Under a non-empty allow-list, no path that contains `..` is allowed; an
/// empty allow-list allows every path.
pub proof fn lemma_traversal_refused(allowed: Seq<Seq<char>>, path: Seq<char>)
    ensures
        allowed.len() > 0 && contains_text(path, ".."@) ==> !adapter_allowed(allowed, path),
        allowed.len() == 0 ==> adapter_allowed(allowed, path),
{
}

} // verus!
