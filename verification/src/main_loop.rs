//! Decision logic of the single-threaded event loop.
//!
//! The loop selects over protocol messages, background task results and
//! filesystem events.  Everything it decides — overlay tracking, the
//! configuration pull correlated by request id, the per-file fan-out of a
//! diagnostics batch, and which files a recomputation covers — is plain
//! logic over plain values; performing the sends and the waiting is the
//! caller's business.

use vstd::prelude::*;

use crate::bytes::{bytes_eq, clone_bytes};
use crate::db::{pair_views, spec_module_entries, RootDatabase};
use crate::errors::{Diagnostic, FileDiagnostic};

verus! {

/// A protocol-level failure a request handler reports.
pub struct LspError {
    pub code: i32,
    pub message: Vec<u8>,
}

impl LspError {
    /// The request named a file the server does not track.
    pub const UNKNOWN_FILE: i32 = -32900;

    pub fn new(code: i32, message: Vec<u8>) -> (r: LspError)
        ensures
            r.code == code,
            r.message == message,
    {
        LspError { code, message }
    }
}

/// How many records of a checked batch carry a diagnostic.
pub open spec fn spec_count_some(checked: Seq<Option<FileDiagnostic>>) -> nat
    decreases checked.len(),
{
    if checked.len() == 0 {
        0
    } else {
        spec_count_some(checked.drop_last()) + if checked.last() is Some {
            1nat
        } else {
            0nat
        }
    }
}

/// A prefix never carries more diagnostics than the whole batch.
proof fn lemma_count_some_prefix(checked: Seq<Option<FileDiagnostic>>, k: int)
    requires
        0 <= k <= checked.len(),
    ensures
        spec_count_some(checked.take(k)) <= spec_count_some(checked),
    decreases checked.len(),
{
    if k == checked.len() {
        assert(checked.take(k) =~= checked);
    } else if checked.len() > 0 {
        assert(checked.drop_last().take(k) =~= checked.take(k));
        lemma_count_some_prefix(checked.drop_last(), k);
    }
}

/// The batch holds, at the position the earlier targets dictate, a clear
/// record for target `k`, followed by its diagnostic when the check found
/// one.
pub open spec fn spec_diag_entry(
    files: Seq<Vec<u8>>,
    checked: Seq<Option<FileDiagnostic>>,
    out: Seq<FileDiagnostic>,
    k: int,
) -> bool {
    let pos = k + spec_count_some(checked.take(k));
    &&& 0 <= pos < out.len()
    &&& out[pos].fpath@ == files[k]@
    &&& out[pos].diagnostic is None
    &&& (checked[k] matches Some(fd) ==> pos + 1 < out.len() && out[pos + 1] == fd)
}

/// Assembles one diagnostics batch: for each target file, in order, first a
/// clear record, then — when the file's check produced one — its first
/// diagnostic.  An untracked or clean file gets the clear record only.
pub fn compute_file_diagnostics(files: &Vec<Vec<u8>>, checked: Vec<Option<FileDiagnostic>>) -> (out:
    Vec<FileDiagnostic>)
    requires
        checked@.len() == files@.len(),
    ensures
        out@.len() == files@.len() + spec_count_some(checked@),
        forall|k: int|
            0 <= k < files@.len() ==> #[trigger] spec_diag_entry(files@, checked@, out@, k),
{
    let ghost checked0 = checked@;
    let mut out: Vec<FileDiagnostic> = Vec::new();
    let mut checked = checked;
    let mut k: usize = 0;
    let n = files.len();
    proof {
        assert(checked@ =~= checked0.skip(0));
        assert(checked0.take(0) =~= Seq::<Option<FileDiagnostic>>::empty());
    }
    while k < n
        invariant
            k <= n,
            n == files@.len(),
            checked0.len() == files@.len(),
            checked@ == checked0.skip(k as int),
            out@.len() == k + spec_count_some(checked0.take(k as int)),
            forall|j: int| 0 <= j < k ==> #[trigger] spec_diag_entry(files@, checked0, out@, j),
        decreases n - k,
    {
        let ghost out_before = out@;
        proof {
            assert(checked0.take(k + 1).drop_last() =~= checked0.take(k as int));
            assert(checked0.take(k + 1).last() == checked0[k as int]);
            assert(checked0.skip(k as int)[0] == checked0[k as int]);
        }
        let ghost pos = k + spec_count_some(checked0.take(k as int));
        let clear = FileDiagnostic::new_empty(&files[k]);
        out.push(clear);
        proof {
            assert(out@[pos].fpath@ == files@[k as int]@);
            assert(out@[pos].diagnostic is None);
        }
        let c = checked.remove(0);
        proof {
            assert(checked@ =~= checked0.skip(k + 1));
        }
        match c {
            Some(fd) => {
                let ghost fdv = fd;
                out.push(fd);
                proof {
                    assert(checked0[k as int] == Some(fdv));
                    assert(out@[pos + 1] == fdv);
                    assert(out@[pos].fpath@ == files@[k as int]@);
                    assert(out@[pos].diagnostic is None);
                }
            },
            None => {},
        }
        proof {
            assert(spec_diag_entry(files@, checked0, out@, k as int));
            assert forall|j: int|
                0 <= j < k + 1 implies #[trigger] spec_diag_entry(files@, checked0, out@, j) by {
                if j < k {
                    assert(spec_diag_entry(files@, checked0, out_before, j));
                    let pos = j + spec_count_some(checked0.take(j));
                    assert(0 <= pos < out_before.len());
                    assert(out@[pos] == out_before[pos]);
                    if pos + 1 < out_before.len() {
                        assert(out@[pos + 1] == out_before[pos + 1]);
                    }
                }
            }
        }
        k = k + 1;
    }
    proof {
        assert(checked0.take(n as int) =~= checked0);
        assert forall|j: int|
            0 <= j < files@.len() implies #[trigger] spec_diag_entry(
                files@,
                checked0,
                out@,
                j,
            ) by {
        }
    }
    out
}

/// One publish notification: a file and the diagnostics now valid for it.
pub struct PublishRecord {
    pub fpath: Vec<u8>,
    pub diagnostics: Vec<Diagnostic>,
}

/// Fans one diagnostics batch out into one publish per file: a record
/// without a diagnostic publishes an empty list, which clears the file.
pub fn diagnostics_to_publishes(file_diags: Vec<FileDiagnostic>) -> (out: Vec<PublishRecord>)
    ensures
        out@.len() == file_diags@.len(),
        forall|k: int|
            0 <= k < file_diags@.len() ==> {
                &&& (#[trigger] out@[k]).fpath@ == file_diags@[k].fpath@
                &&& match file_diags@[k].diagnostic {
                    Some(d) => out@[k].diagnostics@ == seq![d],
                    None => out@[k].diagnostics@.len() == 0,
                }
            },
{
    let ghost fds0 = file_diags@;
    let mut out: Vec<PublishRecord> = Vec::new();
    let mut rest = file_diags;
    let mut k: usize = 0;
    let n = rest.len();
    proof {
        assert(rest@ =~= fds0.skip(0));
    }
    while k < n
        invariant
            k <= n,
            n == fds0.len(),
            rest@ == fds0.skip(k as int),
            out@.len() == k,
            forall|j: int|
                0 <= j < k ==> {
                    &&& (#[trigger] out@[j]).fpath@ == fds0[j].fpath@
                    &&& match fds0[j].diagnostic {
                        Some(d) => out@[j].diagnostics@ == seq![d],
                        None => out@[j].diagnostics@.len() == 0,
                    }
                },
        decreases n - k,
    {
        proof {
            assert(fds0.skip(k as int)[0] == fds0[k as int]);
        }
        let fd = rest.remove(0);
        proof {
            assert(rest@ =~= fds0.skip(k + 1));
        }
        let mut diagnostics: Vec<Diagnostic> = Vec::new();
        let fpath = fd.fpath;
        match fd.diagnostic {
            Some(d) => {
                let ghost dv = d;
                diagnostics.push(d);
                proof {
                    assert(diagnostics@ =~= seq![dv]);
                }
            },
            None => {},
        }
        out.push(PublishRecord { fpath, diagnostics });
        k = k + 1;
    }
    out
}

/// The set of files the client holds open.
pub struct OpenedFiles {
    pub files: Vec<Vec<u8>>,
}

impl OpenedFiles {
    /// No file is tracked twice.
    pub open spec fn wf(&self) -> bool {
        forall|i: int, j: int|
            0 <= i < j < self.files@.len() ==> (#[trigger] self.files@[i])@ != (
            #[trigger] self.files@[j])@
    }

    /// The file is tracked.
    pub open spec fn contains_path(&self, p: Seq<u8>) -> bool {
        exists|i: int| 0 <= i < self.files@.len() && (#[trigger] self.files@[i])@ == p
    }

    pub fn new() -> (r: OpenedFiles)
        ensures
            r.wf(),
            r.files@.len() == 0,
    {
        OpenedFiles { files: Vec::new() }
    }

    /// Index of the file, if tracked.
    fn find(&self, fpath: &Vec<u8>) -> (r: Option<usize>)
        ensures
            match r {
                Some(i) => i < self.files@.len() && self.files@[i as int]@ == fpath@,
                None => !self.contains_path(fpath@),
            },
    {
        let n = self.files.len();
        let mut i: usize = 0;
        while i < n
            invariant
                i <= n,
                n == self.files@.len(),
                forall|j: int| 0 <= j < i ==> (#[trigger] self.files@[j])@ != fpath@,
            decreases n - i,
        {
            if bytes_eq(&self.files[i], fpath) {
                return Some(i);
            }
            i = i + 1;
        }
        None
    }

    /// Starts tracking a file; tracking it twice changes nothing.
    pub fn add(&mut self, fpath: Vec<u8>)
        requires
            old(self).wf(),
        ensures
            final(self).wf(),
            forall|q: Seq<u8>|
                #[trigger] final(self).contains_path(q) <==> (old(self).contains_path(q) || q
                    == fpath@),
    {
        match self.find(&fpath) {
            Some(i) => {
                proof {
                    assert(self.files@[i as int]@ == fpath@);
                    assert(self.contains_path(fpath@));
                }
            },
            None => {
                let ghost before = self.files@;
                let ghost pv = fpath@;
                self.files.push(fpath);
                proof {
                    assert forall|q: Seq<u8>| #[trigger]
                        self.contains_path(q) implies (exists|i: int|
                        0 <= i < before.len() && (#[trigger] before[i])@ == q) || q == pv by {
                        let i = choose|i: int|
                            0 <= i < self.files@.len() && (#[trigger] self.files@[i])@ == q;
                        if i < before.len() {
                            assert(before[i]@ == q);
                        }
                    }
                    assert forall|q: Seq<u8>|
                        (exists|i: int| 0 <= i < before.len() && (#[trigger] before[i])@ == q) || q
                            == pv implies #[trigger] self.contains_path(q) by {
                        if exists|i: int| 0 <= i < before.len() && (#[trigger] before[i])@ == q {
                            let i = choose|i: int|
                                0 <= i < before.len() && (#[trigger] before[i])@ == q;
                            assert(self.files@[i]@ == q);
                        } else {
                            assert(self.files@[before.len() as int]@ == pv);
                        }
                    }
                }
            },
        }
    }

    /// Stops tracking a file.
    pub fn remove(&mut self, fpath: &Vec<u8>)
        requires
            old(self).wf(),
        ensures
            final(self).wf(),
            forall|q: Seq<u8>|
                #[trigger] final(self).contains_path(q) <==> (old(self).contains_path(q) && q
                    != fpath@),
    {
        match self.find(fpath) {
            Some(i) => {
                let ghost before = self.files@;
                let _ = self.files.remove(i);
                proof {
                    assert forall|q: Seq<u8>| #[trigger]
                        self.contains_path(q) implies (exists|j: int|
                        0 <= j < before.len() && (#[trigger] before[j])@ == q) && q != fpath@ by {
                        let j = choose|j: int|
                            0 <= j < self.files@.len() && (#[trigger] self.files@[j])@ == q;
                        if j < i {
                            assert(before[j]@ == q);
                        } else {
                            assert(before[j + 1]@ == q);
                        }
                    }
                    assert forall|q: Seq<u8>|
                        (exists|j: int| 0 <= j < before.len() && (#[trigger] before[j])@ == q) && q
                            != fpath@ implies #[trigger] self.contains_path(q) by {
                        let j = choose|j: int|
                            0 <= j < before.len() && (#[trigger] before[j])@ == q;
                        if j < i {
                            assert(self.files@[j]@ == q);
                        } else {
                            assert(j != i);
                            assert(self.files@[j - 1]@ == q);
                        }
                    }
                }
            },
            None => {},
        }
    }

    /// The tracked files.
    pub fn files(&self) -> (r: &Vec<Vec<u8>>)
        ensures
            r == &self.files,
    {
        &self.files
    }
}

/// The loop-local mutable state.
pub struct LoopState {
    pub next_request_id: u64,
    pub opened_files: OpenedFiles,
    pub configuration_request_id: Option<u64>,
}

impl LoopState {
    pub open spec fn wf(&self) -> bool {
        self.opened_files.wf()
    }

    pub fn new() -> (r: LoopState)
        ensures
            r.wf(),
            r.next_request_id == 0,
            r.opened_files.files@.len() == 0,
            r.configuration_request_id is None,
    {
        LoopState { next_request_id: 0, opened_files: OpenedFiles::new(), configuration_request_id: None }
    }

    /// A fresh request id.
    fn fresh_request_id(&mut self) -> (id: u64)
        requires
            old(self).next_request_id < u64::MAX,
        ensures
            id == old(self).next_request_id + 1,
            final(self).next_request_id == id,
            final(self).opened_files == old(self).opened_files,
            final(self).configuration_request_id == old(self).configuration_request_id,
    {
        self.next_request_id = self.next_request_id + 1;
        self.next_request_id
    }

    /// A fresh loop state that is already waiting for one configuration
    /// response.
    pub fn with_config_request_id(req_id: u64) -> (r: LoopState)
        ensures
            r.wf(),
            r.next_request_id == 0,
            r.opened_files.files@.len() == 0,
            r.configuration_request_id == Some(req_id),
    {
        LoopState {
            next_request_id: 0,
            opened_files: OpenedFiles::new(),
            configuration_request_id: Some(req_id),
        }
    }
}

/// A protocol notification, reduced to the values the loop decides on.
pub enum NotificationEvent {
    DidOpen(Vec<u8>, Vec<u8>),
    DidChange(Vec<u8>, Option<Vec<u8>>),
    DidClose(Vec<u8>),
    DidChangeConfiguration,
    Other,
}

/// What the loop must do after handling a notification.
pub enum LoopAction {
    OpenOverlay(Vec<u8>, Vec<u8>),
    ChangeOverlay(Vec<u8>, Vec<u8>),
    SendConfigRequest(u64),
    ClientError,
    Nothing,
}

/// Handles one notification synchronously: overlay open, change and close
/// track the opened-file set; a configuration-changed notification never
/// carries the value, so the loop issues its own pull request and remembers
/// its id; a change without content is a client error.
pub fn on_notification(state: &mut LoopState, event: NotificationEvent) -> (action: LoopAction)
    requires
        old(state).wf(),
        old(state).next_request_id < u64::MAX,
    ensures
        final(state).wf(),
        match event {
            NotificationEvent::DidOpen(p, t) => {
                &&& (forall|q: Seq<u8>|
                    #[trigger] final(state).opened_files.contains_path(q) <==> (old(
                        state,
                    ).opened_files.contains_path(q) || q == p@))
                &&& action matches LoopAction::OpenOverlay(ap, at) && ap@ == p@ && at@ == t@
                &&& final(state).configuration_request_id == old(state).configuration_request_id
            },
            NotificationEvent::DidChange(p, ot) => {
                match ot {
                    Some(t) => {
                        &&& (forall|q: Seq<u8>|
                            #[trigger] final(state).opened_files.contains_path(q) <==> (old(
                                state,
                            ).opened_files.contains_path(q) || q == p@))
                        &&& action matches LoopAction::ChangeOverlay(ap, at) && ap@ == p@ && at@
                            == t@
                    },
                    None => {
                        &&& action is ClientError
                        &&& *final(state) == *old(state)
                    },
                }
            },
            NotificationEvent::DidClose(p) => {
                &&& (forall|q: Seq<u8>|
                    #[trigger] final(state).opened_files.contains_path(q) <==> (old(
                        state,
                    ).opened_files.contains_path(q) && q != p@))
                &&& action is Nothing
            },
            NotificationEvent::DidChangeConfiguration => {
                &&& action matches LoopAction::SendConfigRequest(id) && id == old(
                    state,
                ).next_request_id + 1
                &&& final(state).configuration_request_id == Some(
                    (old(state).next_request_id + 1) as u64,
                )
                &&& final(state).next_request_id == old(state).next_request_id + 1
            },
            NotificationEvent::Other => *final(state) == *old(state) && action is Nothing,
        },
{
    match event {
        NotificationEvent::DidOpen(p, t) => {
            let path_copy = clone_bytes(&p);
            state.opened_files.add(p);
            LoopAction::OpenOverlay(path_copy, t)
        },
        NotificationEvent::DidChange(p, ot) => {
            match ot {
                Some(t) => {
                    let path_copy = clone_bytes(&p);
                    state.opened_files.add(p);
                    LoopAction::ChangeOverlay(path_copy, t)
                },
                None => LoopAction::ClientError,
            }
        },
        NotificationEvent::DidClose(p) => {
            state.opened_files.remove(&p);
            LoopAction::Nothing
        },
        NotificationEvent::DidChangeConfiguration => {
            let id = state.fresh_request_id();
            state.configuration_request_id = Some(id);
            LoopAction::SendConfigRequest(id)
        },
        NotificationEvent::Other => LoopAction::Nothing,
    }
}

/// Handles a response: only the pending configuration pull is expected, by
/// its remembered id; its arrival clears the correlation, and the whole
/// global state is rebuilt exactly when the response carried a payload.
pub fn on_config_response(state: &mut LoopState, response_id: u64, has_payload: bool) -> (rebuild:
    bool)
    requires
        old(state).wf(),
    ensures
        final(state).wf(),
        if old(state).configuration_request_id == Some(response_id) {
            &&& final(state).configuration_request_id is None
            &&& rebuild == has_payload
            &&& final(state).opened_files == old(state).opened_files
            &&& final(state).next_request_id == old(state).next_request_id
        } else {
            &&& *final(state) == *old(state)
            &&& !rebuild
        },
{
    match state.configuration_request_id {
        Some(id) => {
            if id == response_id {
                state.configuration_request_id = None;
                has_payload
            } else {
                false
            }
        },
        None => false,
    }
}

/// The files one recomputation pass covers: every open file, then every
/// file the project database knows.
pub fn files_to_recheck(opened: &OpenedFiles, db: &RootDatabase) -> (out: Vec<Vec<u8>>)
    requires
        db.wf(),
    ensures
        out@.len() == opened.files@.len() + spec_module_entries(
            pair_views(db.available_files.entries@),
            db.config,
        ).len(),
        forall|k: int|
            0 <= k < opened.files@.len() ==> (#[trigger] out@[k])@ == opened.files@[k]@,
        forall|k: int|
            opened.files@.len() <= k < out@.len() ==> (#[trigger] out@[k])@ == spec_module_entries(
                pair_views(db.available_files.entries@),
                db.config,
            )[k - opened.files@.len()].0,
{
    let mut out: Vec<Vec<u8>> = Vec::new();
    let n = opened.files.len();
    let mut i: usize = 0;
    while i < n
        invariant
            i <= n,
            n == opened.files@.len(),
            out@.len() == i,
            forall|k: int| 0 <= k < i ==> (#[trigger] out@[k])@ == opened.files@[k]@,
        decreases n - i,
    {
        out.push(clone_bytes(&opened.files[i]));
        i = i + 1;
    }
    let modules = db.module_files();
    let ghost mviews = pair_views(modules@);
    let m = modules.len();
    let mut j: usize = 0;
    while j < m
        invariant
            j <= m,
            m == modules@.len(),
            mviews == pair_views(modules@),
            n == opened.files@.len(),
            out@.len() == n + j,
            forall|k: int| 0 <= k < n ==> (#[trigger] out@[k])@ == opened.files@[k]@,
            forall|k: int| n <= k < out@.len() ==> (#[trigger] out@[k])@ == mviews[k - n].0,
        decreases m - j,
    {
        out.push(clone_bytes(&modules[j].0));
        proof {
            assert(mviews[j as int].0 == modules@[j as int].0@);
        }
        j = j + 1;
    }
    out
}

} // verus!
