//! WorkspaceManager: the isolated memory spaces — creating, switching, archiving,
//! listing, detecting them from a working directory, and their counters.

use vstd::prelude::*;
use crate::clock::{Timestamp, now, new_uuid};
use crate::graph::node::{opt_view, copy_opt};
use crate::keyed::{keys_unique, find_by_key, has_key, lemma_find_at, lemma_replace, lemma_append,
    lemma_filter_step, lemma_take_full};
use crate::text::{chars_of, string_from_chars, lowercase, to_lowercase, same_text, str_contains, is_substring,
    has_prefix};

verus! {

/// Status of a workspace.
#[derive(Debug, Clone, Copy, PartialEq, Eq, Structural)]
pub enum WorkspaceStatus {
    Active,
    Archived,
}

/// A workspace's metadata.
#[derive(Debug)]
pub struct Workspace {
    pub id: String,
    pub name: String,
    pub path: Option<String>,
    pub status: WorkspaceStatus,
    pub created_at: Timestamp,
    pub updated_at: Timestamp,
    pub node_count: usize,
    pub edge_count: usize,
}

/// The content of a workspace.
pub struct WorkspaceView {
    pub id: Seq<char>,
    pub name: Seq<char>,
    pub path: Option<Seq<char>>,
    pub status: WorkspaceStatus,
    pub created_at: Timestamp,
    pub updated_at: Timestamp,
    pub node_count: usize,
    pub edge_count: usize,
}

impl View for Workspace {
    type V = WorkspaceView;

    open spec fn view(&self) -> WorkspaceView {
        WorkspaceView {
            id: self.id@,
            name: self.name@,
            path: opt_view(self.path),
            status: self.status,
            created_at: self.created_at,
            updated_at: self.updated_at,
            node_count: self.node_count,
            edge_count: self.edge_count,
        }
    }
}

impl Clone for Workspace {
    fn clone(&self) -> (r: Self)
        ensures
            r@ == self@,
    {
        Workspace {
            id: self.id.clone(),
            name: self.name.clone(),
            path: copy_opt(&self.path),
            status: self.status,
            created_at: self.created_at,
            updated_at: self.updated_at,
            node_count: self.node_count,
            edge_count: self.edge_count,
        }
    }
}

/// The views of a list of workspaces.
pub open spec fn workspaces_view(v: Seq<Workspace>) -> Seq<WorkspaceView> {
    v.map_values(|w: Workspace| w@)
}

/// `s` without its `-` characters.
pub open spec fn without_dashes(s: Seq<char>) -> Seq<char> {
    s.filter(|c: char| c != '-')
}

impl Workspace {
    /// A new active workspace: id `ws_` and a random uuid without dashes, created and
    /// updated now, no nodes or edges counted.
    pub fn new(name: String, path: Option<String>) -> (w: Self)
        ensures
            has_prefix(w@.id, "ws_"@),
            !w@.id.contains('-'),
            w@.name == name@,
            w@.path == opt_view(path),
            w@.status == WorkspaceStatus::Active,
            w@.created_at == w@.updated_at,
            w@.node_count == 0,
            w@.edge_count == 0,
    {
        let t = now();
        let u = chars_of(new_uuid().as_str());
        let mut id: Vec<char> = Vec::new();
        id.push('w');
        id.push('s');
        id.push('_');
        let mut i: usize = 0;
        while i < u.len()
            invariant
                i <= u.len(),
                id@.len() >= 3,
                id@.subrange(0, 3) == seq!['w', 's', '_'],
                forall|k: int| 3 <= k < id@.len() ==> id@[k] != '-',
            decreases u.len() - i,
        {
            if u[i] != '-' {
                id.push(u[i]);
            }
            i += 1;
        }
        proof {
            reveal_strlit("ws_");
            assert(id@.subrange(0, 3) =~= "ws_"@);
            if id@.contains('-') {
                let k = choose|k: int| 0 <= k < id@.len() && id@[k] == '-';
                assert(id@.subrange(0, 3)[k] == id@[k]) by {
                    if k >= 3 {
                    }
                }
            }
        }
        Workspace {
            id: string_from_chars(id.as_slice()),
            name,
            path,
            status: WorkspaceStatus::Active,
            created_at: t,
            updated_at: t,
            node_count: 0,
            edge_count: 0,
        }
    }
}

/// The key of a workspace: its id.
pub open spec fn ws_key() -> spec_fn(WorkspaceView) -> Seq<char> {
    |w: WorkspaceView| w.id
}

/// The workspace with id `id`.
pub open spec fn find_ws(ws: Seq<WorkspaceView>, id: Seq<char>) -> Option<WorkspaceView> {
    find_by_key(ws, ws_key(), id)
}

/// The position of the workspace with id `id`.
pub open spec fn ws_index(ws: Seq<WorkspaceView>, id: Seq<char>) -> int {
    choose|i: int| 0 <= i < ws.len() && ws[i].id == id
}

/// The workspaces after storing `w`: it replaces the one with its id, or is appended.
pub open spec fn store_ws(ws: Seq<WorkspaceView>, w: WorkspaceView) -> Seq<WorkspaceView> {
    if has_key(ws, ws_key(), w.id) { ws.update(ws_index(ws, w.id), w) } else { ws.push(w) }
}

/// A separator of path segments.
pub open spec fn is_sep(c: char) -> bool {
    c == '/' || c == '\\'
}

/// The last segment of a path: what follows its last `/` or `\`.
pub open spec fn last_segment(s: Seq<char>) -> Seq<char>
    decreases s.len(),
{
    if s.len() == 0 {
        Seq::empty()
    } else if is_sep(s.last()) {
        Seq::empty()
    } else {
        last_segment(s.drop_last()).push(s.last())
    }
}

/// A workspace path matches a working directory: in lower case, they are equal or one
/// holds the other.
pub open spec fn path_matches(path: Seq<char>, cwd: Seq<char>) -> bool {
    let p = lowercase(path);
    let c = lowercase(cwd);
    p == c || is_substring(c, p) || is_substring(p, c)
}

/// The workspace is not archived and its path matches the working directory.
pub open spec fn detects(w: WorkspaceView, cwd: Seq<char>) -> bool {
    w.status != WorkspaceStatus::Archived && (w.path matches Some(p) && path_matches(p, cwd))
}

/// A counter moved by `delta`, saturating at both ends.
pub open spec fn bumped(n: usize, delta: isize) -> usize {
    if delta >= 0 {
        if n + delta <= usize::MAX { (n + delta) as usize } else { usize::MAX }
    } else {
        if n + delta >= 0 { (n + delta) as usize } else { 0 }
    }
}

/// Why a workspace operation was refused.
#[derive(Debug, Clone, Copy, PartialEq, Eq, Structural)]
pub enum WorkspaceError {
    /// No workspace has the given id.
    NotFound,
}

/// WorkspaceManager: the workspaces (unique ids, in creation order) and the active one.
pub struct WorkspaceManager {
    workspaces: Vec<Workspace>,
    active_workspace_id: Option<String>,
}

impl WorkspaceManager {
    /// The workspaces, in order.
    pub closed spec fn spaces(&self) -> Seq<WorkspaceView> {
        workspaces_view(self.workspaces@)
    }

    /// The active workspace's id.
    pub closed spec fn active(&self) -> Option<Seq<char>> {
        opt_view(self.active_workspace_id)
    }

    /// The workspaces have unique ids.
    pub open spec fn wf(&self) -> bool {
        keys_unique(self.spaces(), ws_key())
    }

    /// A manager without workspaces.
    pub fn new() -> (m: Self)
        ensures
            m.wf(),
            m.spaces().len() == 0,
            m.active() is None,
    {
        let m = WorkspaceManager { workspaces: Vec::new(), active_workspace_id: None };
        assert(m.spaces() =~= Seq::<WorkspaceView>::empty());
        m
    }

    fn position(&self, id: &str) -> (r: Option<usize>)
        requires
            self.wf(),
        ensures
            match r {
                Some(i) => i < self.spaces().len() && self.spaces()[i as int].id == id@
                    && ws_index(self.spaces(), id@) == i && find_ws(self.spaces(), id@) == Some(self.spaces()[i as int]),
                None => !has_key(self.spaces(), ws_key(), id@) && find_ws(self.spaces(), id@) is None,
            },
    {
        let mut i: usize = 0;
        while i < self.workspaces.len()
            invariant
                self.wf(),
                i <= self.workspaces.len(),
                forall|k: int| 0 <= k < i ==> self.spaces()[k].id != id@,
            decreases self.workspaces.len() - i,
        {
            assert(self.spaces()[i as int] == self.workspaces@[i as int]@);
            if same_text(self.workspaces[i].id.as_str(), id) {
                proof {
                    lemma_find_at(self.spaces(), ws_key(), i as int);
                    let j = ws_index(self.spaces(), id@);
                    assert(ws_key()(self.spaces()[j]) == ws_key()(self.spaces()[i as int]));
                    assert(j == i);
                }
                return Some(i);
            }
            i += 1;
        }
        None
    }

    fn store(&mut self, w: Workspace)
        requires
            old(self).wf(),
        ensures
            final(self).wf(),
            final(self).spaces() == store_ws(old(self).spaces(), w@),
            final(self).active() == old(self).active(),
    {
        let ghost ws = self.spaces();
        let ghost wv = w@;
        match self.position(w.id.as_str()) {
            Some(i) => {
                proof {
                    lemma_replace(ws, ws_key(), i as int, wv);
                }
                self.workspaces.set(i, w);
                assert(self.spaces() =~= ws.update(i as int, wv));
            },
            None => {
                proof {
                    lemma_append(ws, ws_key(), wv);
                }
                self.workspaces.push(w);
                assert(self.spaces() =~= ws.push(wv));
            },
        }
    }

    /// Create a workspace; the first one made (while none is active) becomes active.
    pub fn create_workspace(&mut self, name: String, path: Option<String>) -> (w: Workspace)
        requires
            old(self).wf(),
        ensures
            final(self).wf(),
            has_prefix(w@.id, "ws_"@),
            w@.name == name@,
            w@.path == opt_view(path),
            w@.status == WorkspaceStatus::Active,
            w@.node_count == 0 && w@.edge_count == 0,
            final(self).spaces() == store_ws(old(self).spaces(), w@),
            final(self).active() == (if old(self).active() is None { Some(w@.id) } else { old(self).active() }),
    {
        let w = Workspace::new(name, path);
        let out = w.clone();
        self.store(w);
        if self.active_workspace_id.is_none() {
            self.active_workspace_id = Some(out.id.clone());
        }
        out
    }

    /// The workspace with id `id`, if any.
    pub fn get_workspace(&self, id: &str) -> (r: Option<Workspace>)
        requires
            self.wf(),
        ensures
            match r {
                Some(w) => find_ws(self.spaces(), id@) == Some(w@),
                None => find_ws(self.spaces(), id@) is None,
            },
    {
        match self.position(id) {
            Some(i) => Some(self.workspaces[i].clone()),
            None => None,
        }
    }

    /// Make workspace `workspace_id` active; whether it exists.
    pub fn switch_workspace(&mut self, workspace_id: &str) -> (r: bool)
        requires
            old(self).wf(),
        ensures
            final(self).wf(),
            final(self).spaces() == old(self).spaces(),
            r == has_key(old(self).spaces(), ws_key(), workspace_id@),
            final(self).active() == (if r { Some(workspace_id@) } else { old(self).active() }),
    {
        match self.position(workspace_id) {
            None => false,
            Some(_) => {
                self.active_workspace_id = Some(workspace_id.to_owned());
                true
            },
        }
    }

    /// The active workspace's id.
    pub fn get_active_workspace_id(&self) -> (r: Option<String>)
        ensures
            opt_view(r) == self.active(),
    {
        copy_opt(&self.active_workspace_id)
    }

    /// Archive workspace `workspace_id`; when it was active, no workspace is active any
    /// more. Whether it exists.
    pub fn archive_workspace(&mut self, workspace_id: &str) -> (r: bool)
        requires
            old(self).wf(),
        ensures
            final(self).wf(),
            r == has_key(old(self).spaces(), ws_key(), workspace_id@),
            !r ==> final(self).spaces() == old(self).spaces() && final(self).active() == old(self).active(),
            r ==> exists|w: WorkspaceView| w == (WorkspaceView { status: WorkspaceStatus::Archived, updated_at: w.updated_at,
                ..old(self).spaces()[ws_index(old(self).spaces(), workspace_id@)] })
                && #[trigger] final(self).spaces() == store_ws(old(self).spaces(), w),
            r ==> final(self).active() == (if old(self).active() == Some(workspace_id@) { None } else { old(self).active() }),
    {
        match self.position(workspace_id) {
            None => false,
            Some(i) => {
                let mut w = self.workspaces[i].clone();
                w.status = WorkspaceStatus::Archived;
                w.updated_at = now();
                let ghost wv = w@;
                self.store(w);
                let is_active = match &self.active_workspace_id {
                    Some(a) => same_text(a.as_str(), workspace_id),
                    None => false,
                };
                if is_active {
                    self.active_workspace_id = None;
                }
                true
            },
        }
    }
    /// The workspaces with a status (all without one), in creation order.
    pub fn list_workspaces(&self, status_filter: Option<WorkspaceStatus>) -> (r: Vec<Workspace>)
        ensures
            workspaces_view(r@) == self.spaces().filter(status_pred(status_filter)),
    {
        let ghost ws = self.spaces();
        let mut r: Vec<Workspace> = Vec::new();
        let mut i: usize = 0;
        while i < self.workspaces.len()
            invariant
                i <= self.workspaces.len(),
                ws == self.spaces(),
                workspaces_view(r@) == ws.take(i as int).filter(status_pred(status_filter)),
            decreases self.workspaces.len() - i,
        {
            proof {
                lemma_filter_step(ws, status_pred(status_filter), i as int);
            }
            assert(ws[i as int] == self.workspaces@[i as int]@);
            let keep = match status_filter {
                Some(s) => self.workspaces[i].status == s,
                None => true,
            };
            if keep {
                let ghost before = workspaces_view(r@);
                r.push(self.workspaces[i].clone());
                assert(workspaces_view(r@) =~= before.push(ws[i as int]));
            }
            i += 1;
        }
        proof {
            lemma_take_full(ws);
        }
        r
    }

    /// The first workspace (in creation order) that `detects` the working directory.
    fn find_detected(&self, cwd: &str) -> (r: Option<usize>)
        ensures
            match r {
                Some(i) => i < self.spaces().len() && detects(self.spaces()[i as int], cwd@)
                    && forall|k: int| 0 <= k < i ==> !detects(#[trigger] self.spaces()[k], cwd@),
                None => forall|k: int| 0 <= k < self.spaces().len() ==> !detects(#[trigger] self.spaces()[k], cwd@),
            },
    {
        let c = to_lowercase(cwd);
        let mut i: usize = 0;
        while i < self.workspaces.len()
            invariant
                i <= self.workspaces.len(),
                c@ == lowercase(cwd@),
                forall|k: int| 0 <= k < i ==> !detects(#[trigger] self.spaces()[k], cwd@),
            decreases self.workspaces.len() - i,
        {
            assert(self.spaces()[i as int] == self.workspaces@[i as int]@);
            if self.workspaces[i].status != WorkspaceStatus::Archived {
                match &self.workspaces[i].path {
                    Some(p) => {
                        let pl = to_lowercase(p.as_str());
                        if same_text(pl.as_str(), c.as_str()) || str_contains(c.as_str(), pl.as_str())
                            || str_contains(pl.as_str(), c.as_str()) {
                            return Some(i);
                        }
                    },
                    None => {},
                }
            }
            i += 1;
        }
        None
    }

    /// The workspace of a working directory: the first non-archived workspace whose path
    /// matches it (see `path_matches`) is made active; without one, a workspace named
    /// after the directory's last segment, with the directory as path, is created and
    /// made active. Its id.
    pub fn detect_workspace(&mut self, cwd: &str) -> (r: String)
        requires
            old(self).wf(),
        ensures
            final(self).wf(),
            (exists|i: int| 0 <= i < old(self).spaces().len() && detects(#[trigger] old(self).spaces()[i], cwd@)) ==> {
                let i = choose|i: int| 0 <= i < old(self).spaces().len() && detects(#[trigger] old(self).spaces()[i], cwd@)
                    && forall|k: int| 0 <= k < i ==> !detects(#[trigger] old(self).spaces()[k], cwd@);
                &&& r@ == old(self).spaces()[i].id
                &&& final(self).spaces() == old(self).spaces()
                &&& final(self).active() == Some(r@)
            },
            (forall|i: int| 0 <= i < old(self).spaces().len() ==> !detects(#[trigger] old(self).spaces()[i], cwd@)) ==>
                exists|w: WorkspaceView| #![trigger store_ws(old(self).spaces(), w)] {
                    &&& w.id == r@
                    &&& has_prefix(w.id, "ws_"@)
                    &&& w.name == last_segment(cwd@)
                    &&& w.path == Some(cwd@)
                    &&& w.status == WorkspaceStatus::Active
                    &&& w.node_count == 0 && w.edge_count == 0
                    &&& final(self).spaces() == store_ws(old(self).spaces(), w)
                    &&& final(self).active() == Some(r@)
                },
    {
        match self.find_detected(cwd) {
            Some(i) => {
                let id = self.workspaces[i].id.clone();
                proof {
                    let j = choose|j: int| 0 <= j < self.spaces().len() && detects(#[trigger] self.spaces()[j], cwd@)
                        && forall|k: int| 0 <= k < j ==> !detects(#[trigger] self.spaces()[k], cwd@);
                    if j < i {
                    } else if j > i {
                        assert(!detects(self.spaces()[i as int], cwd@));
                    }
                    assert(self.spaces()[i as int] == self.workspaces@[i as int]@);
                    lemma_find_at(self.spaces(), ws_key(), i as int);
                }
                let ok = self.switch_workspace(id.as_str());
                id
            },
            None => {
                let name = last_segment_of(cwd);
                let w = self.create_workspace(name, Some(cwd.to_owned()));
                let ghost after = self.spaces();
                proof {
                    lemma_store_ws_has(old(self).spaces(), w@);
                }
                let ok = self.switch_workspace(w.id.as_str());
                w.id
            },
        }
    }

    /// Move the node counter of workspace `workspace_id` by `delta` (saturating).
    pub fn bump_node_count(&mut self, workspace_id: &str, delta: isize) -> (r: Result<(), WorkspaceError>)
        requires
            old(self).wf(),
        ensures
            final(self).wf(),
            final(self).active() == old(self).active(),
            match find_ws(old(self).spaces(), workspace_id@) {
                None => r == Err::<(), WorkspaceError>(WorkspaceError::NotFound) && final(self).spaces() == old(self).spaces(),
                Some(w) => r is Ok && exists|q: WorkspaceView| q == (WorkspaceView { node_count: bumped(w.node_count, delta),
                    updated_at: q.updated_at, ..w }) && #[trigger] final(self).spaces() == store_ws(old(self).spaces(), q),
            },
    {
        match self.position(workspace_id) {
            None => Err(WorkspaceError::NotFound),
            Some(i) => {
                let mut w = self.workspaces[i].clone();
                w.node_count = bump(w.node_count, delta);
                w.updated_at = now();
                self.store(w);
                Ok(())
            },
        }
    }

    /// Move the edge counter of workspace `workspace_id` by `delta` (saturating).
    pub fn bump_edge_count(&mut self, workspace_id: &str, delta: isize) -> (r: Result<(), WorkspaceError>)
        requires
            old(self).wf(),
        ensures
            final(self).wf(),
            final(self).active() == old(self).active(),
            match find_ws(old(self).spaces(), workspace_id@) {
                None => r == Err::<(), WorkspaceError>(WorkspaceError::NotFound) && final(self).spaces() == old(self).spaces(),
                Some(w) => r is Ok && exists|q: WorkspaceView| q == (WorkspaceView { edge_count: bumped(w.edge_count, delta),
                    updated_at: q.updated_at, ..w }) && #[trigger] final(self).spaces() == store_ws(old(self).spaces(), q),
            },
    {
        match self.position(workspace_id) {
            None => Err(WorkspaceError::NotFound),
            Some(i) => {
                let mut w = self.workspaces[i].clone();
                w.edge_count = bump(w.edge_count, delta);
                w.updated_at = now();
                self.store(w);
                Ok(())
            },
        }
    }

    /// The node and edge counters of a workspace ((0, 0) for an unknown one).
    pub fn workspace_stats(&self, workspace_id: &str) -> (r: (usize, usize))
        requires
            self.wf(),
        ensures
            r == (match find_ws(self.spaces(), workspace_id@) {
                Some(w) => (w.node_count, w.edge_count),
                None => (0usize, 0usize),
            }),
    {
        match self.position(workspace_id) {
            Some(i) => (self.workspaces[i].node_count, self.workspaces[i].edge_count),
            None => (0, 0),
        }
    }
}

/// The predicate "has status `s`" (anything, without a status).
pub open spec fn status_pred(f: Option<WorkspaceStatus>) -> spec_fn(WorkspaceView) -> bool {
    |w: WorkspaceView| f matches Some(s) ==> w.status == s
}

/// A counter moved by `delta`, saturating at both ends.
fn bump(n: usize, delta: isize) -> (r: usize)
    ensures
        r == bumped(n, delta),
{
    if delta >= 0 {
        let d = delta as usize;
        n.saturating_add(d)
    } else {
        let d = if delta == isize::MIN { (isize::MAX as usize) + 1 } else { (-delta) as usize };
        n.saturating_sub(d)
    }
}

proof fn lemma_last_segment(s: Seq<char>, k: int)
    requires
        0 <= k <= s.len(),
        forall|j: int| k <= j < s.len() ==> !is_sep(#[trigger] s[j]),
        k == 0 || is_sep(s[k - 1]),
    ensures
        last_segment(s) == s.subrange(k, s.len() as int),
    decreases s.len(),
{
    if s.len() > k {
        lemma_last_segment(s.drop_last(), k);
        assert(s.drop_last().subrange(k, s.len() - 1).push(s.last()) =~= s.subrange(k, s.len() as int));
    } else {
        assert(s.subrange(k, s.len() as int) =~= Seq::<char>::empty());
        if s.len() > 0 {
            assert(is_sep(s.last()));
        }
    }
}

/// The last segment of a path (see `last_segment`).
fn last_segment_of(path: &str) -> (r: String)
    ensures
        r@ == last_segment(path@),
{
    let cs = chars_of(path);
    let mut k: usize = cs.len();
    while k > 0 && !(cs[k - 1] == '/' || cs[k - 1] == '\\')
        invariant
            k <= cs.len(),
            cs@ == path@,
            forall|j: int| k <= j < cs.len() ==> !is_sep(#[trigger] cs@[j]),
        decreases k,
    {
        k -= 1;
    }
    proof {
        lemma_last_segment(path@, k as int);
    }
    let seg = crate::text::copy_range(&cs, k, cs.len());
    string_from_chars(seg.as_slice())
}

proof fn lemma_store_ws_has(ws: Seq<WorkspaceView>, w: WorkspaceView)
    requires
        keys_unique(ws, ws_key()),
    ensures
        has_key(store_ws(ws, w), ws_key(), w.id),
{
    if has_key(ws, ws_key(), w.id) {
        let i = ws_index(ws, w.id);
        assert(store_ws(ws, w)[i] == w);
    } else {
        assert(store_ws(ws, w)[ws.len() as int] == w);
    }
}

impl super::Actor for WorkspaceManager {
    fn name(&self) -> &'static str {
        "WorkspaceManager"
    }

    /// The number of workspaces.
    fn size(&self) -> (r: usize)
        ensures
            r == self.spaces().len(),
    {
        self.workspaces.len()
    }
}

} // verus!
