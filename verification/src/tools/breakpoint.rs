//! Breakpoint tracking: DAP's `setBreakpoints` replaces all breakpoints of a
//! file, so the server keeps each file's list.

use vstd::prelude::*;

use crate::dap::types::EventView;
use crate::json::{JsonValue, JsonView, JsonNumber, NumberView, str_eq};
use crate::services::event_loop::{int_json, int_number, or_else};
use crate::text::{decimal_text, signed_decimal_text, push_signed_decimal, push_str, string_of};

verus! {

/// A tracked breakpoint with line and optional condition.
#[derive(Debug)]
pub struct TrackedBreakpoint {
    pub line: i64,
    pub condition: Option<String>,
}

/// Parameters of the set-breakpoint tool.
#[derive(Debug)]
pub struct SetBreakpointParams {
    /// Source file path.
    pub file: String,
    /// Line number (1-indexed).
    pub line: i64,
    /// Optional condition expression.
    pub condition: Option<String>,
}

/// Parameters of the remove-breakpoint tool.
#[derive(Debug)]
pub struct RemoveBreakpointParams {
    /// Source file path.
    pub file: String,
    /// Line number (1-indexed).
    pub line: i64,
}

/// Mathematical view of a tracked breakpoint.
pub struct BreakpointView {
    pub line: i64,
    pub condition: Option<Seq<char>>,
}

/// The view of an optional string.
pub open spec fn opt_text(o: Option<String>) -> Option<Seq<char>> {
    match o {
        Some(s) => Some(s@),
        None => None,
    }
}

impl TrackedBreakpoint {
    pub open spec fn view(&self) -> BreakpointView {
        BreakpointView { line: self.line, condition: opt_text(self.condition) }
    }

    /// A copy of the breakpoint.
    pub fn copy(&self) -> (b: TrackedBreakpoint)
        ensures
            b@ == self@,
    {
        let condition = match &self.condition {
            Some(c) => Some(c.clone()),
            None => None,
        };
        TrackedBreakpoint { line: self.line, condition }
    }
}

/// The views of a list of breakpoints.
pub open spec fn bp_views(v: Seq<TrackedBreakpoint>) -> Seq<BreakpointView> {
    v.map_values(|b: TrackedBreakpoint| b@)
}

/// The DAP form of a breakpoint: `{"condition": .., "line": ..}`, the
/// condition only when there is one.
pub open spec fn dap_breakpoint(b: BreakpointView) -> JsonView {
    match b.condition {
        Some(c) => JsonView::Object(
            seq![("condition"@, JsonView::Str(c)), ("line"@, JsonView::Number(int_number(b.line)))],
        ),
        None => JsonView::Object(seq![("line"@, JsonView::Number(int_number(b.line)))]),
    }
}

/// The `breakpoints` argument of a DAP `setBreakpoints` request.
pub open spec fn dap_breakpoints(bps: Seq<BreakpointView>) -> JsonView {
    JsonView::Array(bps.map_values(|b: BreakpointView| dap_breakpoint(b)))
}

/// The DAP `breakpoints` array for a file's breakpoints.
pub fn breakpoints_json(bps: &Vec<TrackedBreakpoint>) -> (r: JsonValue)
    ensures
        r@ == dap_breakpoints(bp_views(bps@)),
{
    let mut out: Vec<JsonValue> = Vec::new();
    for i in 0..bps.len()
        invariant
            out@.len() == i,
            forall|j: int| 0 <= j < i ==> #[trigger] out@[j]@ == dap_breakpoint(bps@[j]@),
    {
        let b = &bps[i];
        let mut members: Vec<(String, JsonValue)> = Vec::new();
        match &b.condition {
            Some(c) => {
                members.push(("condition".to_owned(), JsonValue::String(c.clone())));
            },
            None => {},
        }
        members.push(("line".to_owned(), int_json(b.line)));
        let item = JsonValue::Object(members);
        proof {
            let mv = item@->Object_0;
            assert forall|k: int| 0 <= k < members@.len() implies mv[k] == (
            members@[k].0@, members@[k].1@) by {}
            assert(mv =~= dap_breakpoint(b@)->Object_0);
        }
        out.push(item);
    }
    let r = JsonValue::Array(out);
    assert(r@->Array_0 =~= dap_breakpoints(bp_views(bps@))->Array_0) by {
        assert forall|j: int| 0 <= j < bps@.len() implies (r@->Array_0)[j] == dap_breakpoints(
            bp_views(bps@),
        )->Array_0[j] by {
            assert(out@[j]@ == dap_breakpoint(bps@[j]@));
            assert(bp_views(bps@)[j] == bps@[j]@);
        }
    }
    r
}

/// The arguments of a DAP `setBreakpoints` request for `file`: its whole
/// list of breakpoints, which replaces what the adapter had for it.
pub open spec fn set_breakpoints_view(file: Seq<char>, bps: Seq<BreakpointView>) -> JsonView {
    JsonView::Object(
        seq![
            ("breakpoints"@, dap_breakpoints(bps)),
            ("source"@, JsonView::Object(seq![("path"@, JsonView::Str(file))])),
        ],
    )
}

/// The arguments of a DAP `setBreakpoints` request (see [`set_breakpoints_view`]).
pub fn set_breakpoints_arguments(file: &str, bps: &Vec<TrackedBreakpoint>) -> (r: JsonValue)
    ensures
        r@ == set_breakpoints_view(file@, bp_views(bps@)),
{
    let mut source: Vec<(String, JsonValue)> = Vec::new();
    source.push(("path".to_owned(), JsonValue::String(file.to_owned())));
    let src = JsonValue::Object(source);
    proof {
        let sv = src@->Object_0;
        assert(sv[0] == (source@[0].0@, source@[0].1@));
        assert(sv =~= seq![("path"@, JsonView::Str(file@))]);
    }
    let mut members: Vec<(String, JsonValue)> = Vec::new();
    members.push(("breakpoints".to_owned(), breakpoints_json(bps)));
    members.push(("source".to_owned(), src));
    let r = JsonValue::Object(members);
    proof {
        let mv = r@->Object_0;
        assert forall|k: int| 0 <= k < members@.len() implies mv[k] == (
        members@[k].0@, members@[k].1@) by {}
        assert(mv =~= set_breakpoints_view(file@, bp_views(bps@))->Object_0);
    }
    r
}

/// Mathematical view of a breakpoint table: files with their breakpoints.
pub type TableView = Seq<(Seq<char>, Seq<BreakpointView>)>;

/// Index of the entry for `file`.
pub open spec fn file_index(t: TableView, file: Seq<char>) -> Option<int>
    decreases t.len(),
{
    if t.len() == 0 {
        None
    } else if t[0].0 == file {
        Some(0)
    } else {
        match file_index(t.drop_first(), file) {
            Some(i) => Some(i + 1),
            None => None,
        }
    }
}

/// The breakpoints of `file` (none when it has no entry).
pub open spec fn file_breakpoints(t: TableView, file: Seq<char>) -> Seq<BreakpointView> {
    match file_index(t, file) {
        Some(i) => t[i].1,
        None => Seq::empty(),
    }
}

/// The table after adding `b` to `file`'s list (a new file goes last).
pub open spec fn table_with(t: TableView, file: Seq<char>, b: BreakpointView) -> TableView {
    match file_index(t, file) {
        Some(i) => t.update(i, (file, t[i].1.push(b))),
        None => t.push((file, seq![b])),
    }
}

/// The breakpoints left, in order, after removing those on `line`.
pub open spec fn without_line(bps: Seq<BreakpointView>, line: i64) -> Seq<BreakpointView>
    decreases bps.len(),
{
    if bps.len() == 0 {
        bps
    } else if bps.last().line == line {
        without_line(bps.drop_last(), line)
    } else {
        without_line(bps.drop_last(), line).push(bps.last())
    }
}

/// Whether some breakpoint is on `line`.
pub open spec fn has_line(bps: Seq<BreakpointView>, line: i64) -> bool {
    exists|k: int| 0 <= k < bps.len() && #[trigger] bps[k].line == line
}

/// Removing the breakpoints on `line` of `file` from table `t` answers `r`
/// and leaves `t2`: nothing changes and `None` is answered when the file has
/// no breakpoint on that line; otherwise the file keeps the others and the
/// number kept is answered.
pub open spec fn removed_line(t: TableView, file: Seq<char>, line: i64, r: Option<usize>, t2: TableView) -> bool {
    match file_index(t, file) {
        None => r is None && t2 == t,
        Some(i) => if !has_line(t[i].1, line) {
            r is None && t2 == t
        } else {
            let kept = without_line(t[i].1, line);
            r == Some(kept.len() as usize) && t2 == t.update(i, (file, kept))
        },
    }
}

/// The table without `file`'s entry when its list is empty.
pub open spec fn dropped_if_empty(t: TableView, file: Seq<char>) -> TableView {
    match file_index(t, file) {
        Some(i) => if t[i].1.len() == 0 {
            t.remove(i)
        } else {
            t
        },
        None => t,
    }
}

/// Per-file breakpoint lists.
pub struct BreakpointTable {
    files: Vec<(String, Vec<TrackedBreakpoint>)>,
}

impl View for BreakpointTable {
    type V = TableView;

    closed spec fn view(&self) -> TableView {
        Seq::new(
            self.files@.len(),
            |i: int| (self.files@[i].0@, bp_views(self.files@[i].1@)),
        )
    }
}

/// `file_index` finds the first entry for a file, and fails exactly when there is none.
pub proof fn lemma_file_index(t: TableView, file: Seq<char>)
    ensures
        file_index(t, file) matches Some(i) ==> 0 <= i < t.len() && t[i].0 == file && forall|j: int|
            0 <= j < i ==> t[j].0 != file,
        file_index(t, file) is None ==> forall|j: int| 0 <= j < t.len() ==> t[j].0 != file,
    decreases t.len(),
{
    if t.len() > 0 {
        lemma_file_index(t.drop_first(), file);
        assert forall|j: int| 0 < j < t.len() implies t[j] == t.drop_first()[j - 1] by {}
    }
}

impl BreakpointTable {
    /// An empty table.
    pub fn new() -> (t: Self)
        ensures
            t@ == Seq::<(Seq<char>, Seq<BreakpointView>)>::empty(),
    {
        let t = BreakpointTable { files: Vec::new() };
        assert(t@ =~= Seq::<(Seq<char>, Seq<BreakpointView>)>::empty());
        t
    }

    fn position(&self, file: &str) -> (r: Option<usize>)
        ensures
            r matches Some(i) ==> file_index(self@, file@) == Some(i as int) && i < self@.len(),
            r is None ==> file_index(self@, file@) is None,
    {
        let mut i: usize = 0;
        while i < self.files.len()
            invariant
                i <= self.files@.len(),
                self@.len() == self.files@.len(),
                forall|j: int| 0 <= j < i ==> self@[j].0 != file@,
            decreases self.files.len() - i,
        {
            assert(self@[i as int].0 == self.files@[i as int].0@);
            if str_eq(self.files[i].0.as_str(), file) {
                proof {
                    lemma_file_index(self@, file@);
                }
                return Some(i);
            }
            i = i + 1;
        }
        proof {
            lemma_file_index(self@, file@);
        }
        None
    }

    /// The breakpoints tracked for `file`.
    pub fn breakpoints_of(&self, file: &str) -> (r: Vec<TrackedBreakpoint>)
        ensures
            bp_views(r@) == file_breakpoints(self@, file@),
    {
        match self.position(file) {
            None => {
                let r: Vec<TrackedBreakpoint> = Vec::new();
                assert(bp_views(r@) =~= Seq::<BreakpointView>::empty());
                r
            },
            Some(i) => {
                let src = &self.files[i].1;
                let mut r: Vec<TrackedBreakpoint> = Vec::new();
                for k in 0..src.len()
                    invariant
                        r@.len() == k,
                        forall|j: int| 0 <= j < k ==> #[trigger] r@[j]@ == src@[j]@,
                {
                    r.push(src[k].copy());
                }
                assert(bp_views(r@) =~= bp_views(src@));
                r
            },
        }
    }

    /// Add a breakpoint to `file`'s list.
    pub fn add(&mut self, file: &str, bp: TrackedBreakpoint)
        ensures
            final(self)@ == table_with(old(self)@, file@, bp@),
    {
        let ghost t = self@;
        let ghost before = self.files@;
        let ghost b = bp@;
        match self.position(file) {
            Some(i) => {
                proof {
                    lemma_file_index(t, file@);
                }
                let mut entry = self.files.remove(i);
                let ghost ebefore = entry.1@;
                assert(entry == before[i as int]);
                entry.1.push(bp);
                assert(bp_views(entry.1@) =~= bp_views(ebefore).push(b));
                let ghost new_entry = entry;
                self.files.insert(i, entry);
                assert(self.files@ =~= before.update(i as int, new_entry));
                assert(self@ =~= t.update(i as int, (file@, t[i as int].1.push(b)))) by {
                    assert forall|j: int| 0 <= j < t.len() && j != i implies self.files@[j] == before[j] by {}
                    assert(t[i as int].0 == file@);
                    assert(t[i as int].1 == bp_views(ebefore));
                }
            },
            None => {
                let mut list: Vec<TrackedBreakpoint> = Vec::new();
                list.push(bp);
                assert(bp_views(list@) =~= seq![b]);
                self.files.push((file.to_owned(), list));
                assert(self@ =~= t.push((file@, seq![b]))) by {
                    assert forall|j: int| 0 <= j < t.len() implies self.files@[j] == before[j] by {}
                }
            },
        }
    }

    /// Remove the breakpoints on `line` of `file`; answers how many of the
    /// file's breakpoints remain, or `None` when there was none on that line.
    pub fn remove_line(&mut self, file: &str, line: i64) -> (r: Option<usize>)
        ensures
            removed_line(old(self)@, file@, line, r, final(self)@),
    {
        let ghost t = self@;
        let ghost before = self.files@;
        let i = match self.position(file) {
            None => {
                return None;
            },
            Some(i) => i,
        };
        proof {
            lemma_file_index(t, file@);
        }
        let mut found = false;
        let mut kept: Vec<TrackedBreakpoint> = Vec::new();
        {
            let list = &self.files[i].1;
            assert(bp_views(list@) == t[i as int].1);
            for k in 0..list.len()
                invariant
                    bp_views(list@) == t[i as int].1,
                    bp_views(kept@) == without_line(bp_views(list@).take(k as int), line),
                    found == has_line(bp_views(list@).take(k as int), line),
            {
                let ghost prev = bp_views(list@).take(k as int);
                let ghost next = bp_views(list@).take(k + 1);
                assert(next.drop_last() == prev);
                assert(next.last() == list@[k as int]@);
                if list[k].line == line {
                    found = true;
                    assert(next[k as int].line == line);
                } else {
                    let ghost kb = bp_views(kept@);
                    kept.push(list[k].copy());
                    assert(bp_views(kept@) =~= kb.push(list@[k as int]@));
                }
                proof {
                    if has_line(next, line) && !(list@[k as int].line == line) {
                        let w = choose|w: int| 0 <= w < next.len() && #[trigger] next[w].line == line;
                        assert(prev[w].line == line);
                    }
                    if has_line(prev, line) {
                        let w = choose|w: int| 0 <= w < prev.len() && #[trigger] prev[w].line == line;
                        assert(next[w].line == line);
                    }
                }
            }
            assert(bp_views(list@).take(list@.len() as int) == bp_views(list@));
        }
        if !found {
            return None;
        }
        let remaining = kept.len();
        let ghost kv = bp_views(kept@);
        let name = self.files[i].0.clone();
        self.files.set(i, (name, kept));
        assert(self@ =~= t.update(i as int, (file@, kv))) by {
            assert forall|j: int| 0 <= j < t.len() && j != i implies self.files@[j] == before[j] by {}
        }
        Some(remaining)
    }

    /// Drop `file`'s entry if its list is empty.
    pub fn drop_if_empty(&mut self, file: &str)
        ensures
            final(self)@ == dropped_if_empty(old(self)@, file@),
    {
        let ghost t = self@;
        let ghost before = self.files@;
        match self.position(file) {
            None => {},
            Some(i) => {
                proof {
                    lemma_file_index(t, file@);
                }
                if self.files[i].1.len() == 0 {
                    self.files.remove(i);
                    assert(self@ =~= t.remove(i as int)) by {
                        assert forall|j: int| 0 <= j < t.len() - 1 implies self.files@[j] == if j < i {
                            before[j]
                        } else {
                            before[j + 1]
                        } by {}
                    }
                }
            },
        }
    }
}

/// Index of the last element of `items` whose `line` member is `line`.
pub open spec fn last_on_line(items: Seq<JsonView>, line: i64) -> Option<int>
    decreases items.len(),
{
    if items.len() == 0 {
        None
    } else if items.last().get_i64("line"@) == Some(line) {
        Some(items.len() - 1)
    } else {
        last_on_line(items.drop_last(), line)
    }
}

/// The reply to setting a breakpoint at `file:line`, from the adapter's
/// `setBreakpoints` response `body`: the last reported breakpoint on that line
/// gives `Breakpoint verified|pending at file:line` (and the condition, if
/// any); without one, `Breakpoint set at file:line`.
pub open spec fn set_breakpoint_text(file: Seq<char>, line: i64, condition: Option<Seq<char>>, body: JsonView) -> Seq<char> {
    let items = or_else(body.get_array("breakpoints"@), Seq::empty());
    match last_on_line(items, line) {
        Some(k) => {
            let b = items[k];
            let status = if or_else(b.get_bool("verified"@), false) {
                "verified"@
            } else {
                "pending"@
            };
            let cond = match condition {
                Some(c) => " (condition: "@ + c + ")"@,
                None => Seq::empty(),
            };
            "Breakpoint "@ + status + " at "@ + file + ":"@ + signed_decimal_text(
                or_else(b.get_i64("line"@), line) as int,
            ) + cond
        },
        None => "Breakpoint set at "@ + file + ":"@ + signed_decimal_text(line as int),
    }
}

/// The reply when there is no breakpoint to remove at `file:line`.
pub open spec fn no_breakpoint_text(file: Seq<char>, line: i64) -> Seq<char> {
    "No breakpoint at "@ + file + ":"@ + signed_decimal_text(line as int)
}

/// The reply after removing the breakpoints at `file:line`.
pub open spec fn removed_text(file: Seq<char>, line: i64, remaining: nat) -> Seq<char> {
    "Breakpoint removed at "@ + file + ":"@ + signed_decimal_text(line as int) + " ("@
        + decimal_text(remaining) + " remaining)"@
}

/// The reply to setting a breakpoint (see [`set_breakpoint_text`]).
pub fn set_breakpoint_message(params: &SetBreakpointParams, body: &JsonValue) -> (r: String)
    ensures
        r@ == set_breakpoint_text(params.file@, params.line, opt_text(params.condition), body@),
{
    let empty: Vec<JsonValue> = Vec::new();
    let items: &Vec<JsonValue> = match body.get("breakpoints") {
        Some(v) => match v.as_array() {
            Some(a) => a,
            None => &empty,
        },
        None => &empty,
    };
    let ghost iv = JsonValue::Array(*items)@->Array_0;
    assert(iv =~= or_else(body@.get_array("breakpoints"@), Seq::empty()));
    let mut k = items.len();
    assert(iv.take(k as int) == iv);
    while k > 0 && items[k - 1].get_i64("line") != Some(params.line)
        invariant
            k <= items@.len(),
            iv == JsonValue::Array(*items)@->Array_0,
            last_on_line(iv, params.line) == last_on_line(iv.take(k as int), params.line),
        decreases k,
    {
        assert(iv[k - 1] == items@[k - 1]@);
        assert(iv.take(k as int).drop_last() == iv.take(k - 1));
        k = k - 1;
    }
    let mut out: Vec<char> = Vec::new();
    if k == 0 {
        push_str(&mut out, "Breakpoint set at ");
        push_str(&mut out, params.file.as_str());
        push_str(&mut out, ":");
        push_signed_decimal(&mut out, params.line);
        return string_of(&out);
    }
    assert(iv[k - 1] == items@[k - 1]@);
    assert(iv.take(k as int).last() == iv[k - 1]);
    let b = &items[k - 1];
    let verified = match b.get_bool("verified") {
        Some(v) => v,
        None => false,
    };
    let actual = match b.get_i64("line") {
        Some(l) => l,
        None => params.line,
    };
    push_str(&mut out, "Breakpoint ");
    if verified {
        push_str(&mut out, "verified");
    } else {
        push_str(&mut out, "pending");
    }
    push_str(&mut out, " at ");
    push_str(&mut out, params.file.as_str());
    push_str(&mut out, ":");
    push_signed_decimal(&mut out, actual);
    match &params.condition {
        Some(c) => {
            push_str(&mut out, " (condition: ");
            push_str(&mut out, c.as_str());
            push_str(&mut out, ")");
        },
        None => {},
    }
    string_of(&out)
}

/// The reply when there is no breakpoint to remove.
pub fn no_breakpoint_message(params: &RemoveBreakpointParams) -> (r: String)
    ensures
        r@ == no_breakpoint_text(params.file@, params.line),
{
    let mut out: Vec<char> = Vec::new();
    push_str(&mut out, "No breakpoint at ");
    push_str(&mut out, params.file.as_str());
    push_str(&mut out, ":");
    push_signed_decimal(&mut out, params.line);
    string_of(&out)
}

/// The reply after removing breakpoints, with the number remaining.
pub fn removed_message(params: &RemoveBreakpointParams, remaining: usize) -> (r: String)
    ensures
        r@ == removed_text(params.file@, params.line, remaining as nat),
{
    let mut out: Vec<char> = Vec::new();
    push_str(&mut out, "Breakpoint removed at ");
    push_str(&mut out, params.file.as_str());
    push_str(&mut out, ":");
    push_signed_decimal(&mut out, params.line);
    push_str(&mut out, " (");
    crate::text::push_decimal(&mut out, remaining as u64);
    push_str(&mut out, " remaining)");
    string_of(&out)
}

/// The first entry holding `file` is what `file_index` finds.
proof fn lemma_file_index_at(t: TableView, file: Seq<char>, i: int)
    requires
        0 <= i < t.len(),
        t[i].0 == file,
        forall|j: int| 0 <= j < i ==> t[j].0 != file,
    ensures
        file_index(t, file) == Some(i),
{
    lemma_file_index(t, file);
}

/// Tables with the same files in the same places index every file alike.
proof fn lemma_same_files(t: TableView, u: TableView, file: Seq<char>)
    requires
        t.len() == u.len(),
        forall|j: int| 0 <= j < t.len() ==> t[j].0 == u[j].0,
    ensures
        file_index(t, file) == file_index(u, file),
{
    lemma_file_index(t, file);
    lemma_file_index(u, file);
    match file_index(t, file) {
        Some(i) => lemma_file_index_at(u, file, i),
        None => {
            if file_index(u, file) is Some {
                let k = file_index(u, file)->Some_0;
                assert(t[k].0 == file);
            }
        },
    }
}

/// Adding a breakpoint to a file appends it to that file's list and leaves
/// every other file's list as it was.
pub proof fn lemma_add_reads_back(t: TableView, file: Seq<char>, b: BreakpointView, other: Seq<char>)
    requires
        other != file,
    ensures
        file_breakpoints(table_with(t, file, b), file) == file_breakpoints(t, file).push(b),
        file_breakpoints(table_with(t, file, b), other) == file_breakpoints(t, other),
{
    let t2 = table_with(t, file, b);
    lemma_file_index(t, file);
    lemma_file_index(t, other);
    match file_index(t, file) {
        Some(i) => {
            lemma_same_files(t, t2, file);
            lemma_same_files(t, t2, other);
            if file_index(t, other) is Some {
                assert(file_index(t, other)->Some_0 != i);
            }
        },
        None => {
            lemma_file_index_at(t2, file, t.len() as int);
            assert(seq![b] =~= Seq::<BreakpointView>::empty().push(b));
            lemma_file_index(t2, other);
            match file_index(t, other) {
                Some(k) => lemma_file_index_at(t2, other, k),
                None => {
                    if file_index(t2, other) is Some {
                        let k = file_index(t2, other)->Some_0;
                        if k < t.len() {
                            assert(t2[k] == t[k]);
                        }
                    }
                },
            }
        },
    }
}

/// The breakpoints left after removing a line are exactly those not on it, in order.
pub proof fn lemma_without_line_filter(bps: Seq<BreakpointView>, line: i64)
    ensures
        without_line(bps, line) == bps.filter(|bp: BreakpointView| bp.line != line),
    decreases bps.len(),
{
    reveal(Seq::filter);
    if bps.len() > 0 {
        lemma_without_line_filter(bps.drop_last(), line);
    }
}

/// Removing a line of a file leaves that file with exactly its breakpoints
/// on other lines, in order, and every other file untouched.
pub proof fn lemma_remove_line_effect(t: TableView, file: Seq<char>, line: i64, r: Option<usize>, t2: TableView, other: Seq<char>)
    requires
        removed_line(t, file, line, r, t2),
        other != file,
    ensures
        file_breakpoints(t2, file) == file_breakpoints(t, file).filter(|bp: BreakpointView| bp.line != line),
        file_breakpoints(t2, other) == file_breakpoints(t, other),
{
    lemma_file_index(t, file);
    lemma_file_index(t, other);
    lemma_without_line_filter(file_breakpoints(t, file), line);
    match file_index(t, file) {
        Some(i) => {
            if has_line(t[i].1, line) {
                lemma_same_files(t, t2, file);
                lemma_same_files(t, t2, other);
                if file_index(t, other) is Some {
                    assert(file_index(t, other)->Some_0 != i);
                }
            } else {
                lemma_without_line_none(t[i].1, line);
            }
        },
        None => {
            reveal(Seq::filter);
            assert(Seq::<BreakpointView>::empty().filter(|bp: BreakpointView| bp.line != line) =~= Seq::<BreakpointView>::empty());
        },
    }
}

/// With no breakpoint on `line`, removing it keeps the list.
proof fn lemma_without_line_none(bps: Seq<BreakpointView>, line: i64)
    requires
        !has_line(bps, line),
    ensures
        without_line(bps, line) == bps,
    decreases bps.len(),
{
    if bps.len() > 0 {
        assert(bps.last() == bps[bps.len() - 1]);
        assert(!has_line(bps.drop_last(), line)) by {
            if has_line(bps.drop_last(), line) {
                let k = choose|k: int| 0 <= k < bps.drop_last().len() && #[trigger] bps.drop_last()[k].line == line;
                assert(bps[k].line == line);
            }
        }
        lemma_without_line_none(bps.drop_last(), line);
        assert(bps.drop_last().push(bps.last()) =~= bps);
    }
}

/// The breakpoint reported for a line is the last one the adapter lists on
/// that line; none is reported when no listed breakpoint is on it.
pub proof fn lemma_last_on_line(items: Seq<JsonView>, line: i64)
    ensures
        last_on_line(items, line) matches Some(k) ==> 0 <= k < items.len() && items[k].get_i64("line"@)
            == Some(line) && forall|j: int| k < j < items.len() ==> items[j].get_i64("line"@) != Some(line),
        last_on_line(items, line) is None ==> forall|j: int|
            0 <= j < items.len() ==> items[j].get_i64("line"@) != Some(line),
    decreases items.len(),
{
    if items.len() > 0 {
        lemma_last_on_line(items.drop_last(), line);
        assert forall|j: int| 0 <= j < items.len() - 1 implies items.drop_last()[j] == items[j] by {}
    }
}

} // verus!
