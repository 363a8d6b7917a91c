//! The analysis facade: snapshots, batch preparation and the check verdict.
//!
//! A check runs over the current file plus every dependency the database
//! knows.  Preparation rewrites, strips and verifies each file
//! independently; the compiler core then parses the prepared files and, when
//! every file parsed, checks them as one program.  Any parse error anywhere
//! in the batch skips the check stage, and only the accumulated parse
//! errors are returned.

use vstd::prelude::*;

use crate::bytes::bytes_eq;
use crate::db::{
    apply_ops, apply_ops_config, change_wf, pair_views, spec_module_entries, spec_without_key,
    AnalysisChange, FileMap, RootDatabase,
};
use crate::errors::{
    error_files_known, translate_error, translated_ok, CompilerError, FileDiagnostic,
    ProjectSourceMap, TranslationFault,
};
use crate::pipeline::{
    collect_parse_errors, invalid_byte_message, parse_file, spec_parse_errors, spec_prepared,
    spec_rewritten, ParseOutcome, PlannedFile,
};
use crate::rewriter::{spec_sender_layers, MAX_SOURCE_LEN};
use crate::source_map::{apply_layers, layer_models};

verus! {

/// A prepared batch: one planned file per file of the batch, and the batch's
/// source maps, aligned index by index.
pub struct CheckPlan {
    pub files: Vec<PlannedFile>,
    pub maps: ProjectSourceMap,
}

impl CheckPlan {
    pub open spec fn wf(&self) -> bool {
        &&& self.maps.wf()
        &&& self.maps.files@.len() == self.files@.len()
        &&& forall|k: int| 0 <= k < self.files@.len() ==> (#[trigger] self.files@[k]).wf()
        &&& forall|k: int|
            0 <= k < self.files@.len() ==> (#[trigger] self.maps.files@[k]).fpath@
                == self.files@[k].fpath@
    }
}

/// Owner of the live database; the loop thread applies change batches here
/// and hands frozen snapshots to workers.
pub struct AnalysisHost {
    pub db: RootDatabase,
}

impl AnalysisHost {
    pub open spec fn wf(&self) -> bool {
        self.db.wf()
    }

    /// The live database.
    pub fn db(&self) -> (r: &RootDatabase)
        ensures
            r == &self.db,
    {
        &self.db
    }

    /// A frozen snapshot for one compilation pass.
    pub fn analysis(&self) -> (r: Analysis)
        requires
            self.wf(),
        ensures
            r.db.wf(),
            r.db.available_files.as_map() == self.db.available_files.as_map(),
            pair_views(r.db.available_files.entries@) == pair_views(
                self.db.available_files.entries@,
            ),
            r.db.config.dialect_name == self.db.config.dialect_name,
            r.db.config.sender_address.normalized_original@
                == self.db.config.sender_address.normalized_original@,
            spec_module_entries(pair_views(r.db.available_files.entries@), r.db.config)
                == spec_module_entries(
                pair_views(self.db.available_files.entries@),
                self.db.config,
            ),
    {
        Analysis::new(self.db.duplicate())
    }

    /// Applies one atomic change batch to the live database.
    pub fn apply_change(&mut self, change: AnalysisChange)
        requires
            old(self).wf(),
            change_wf(change.ops@),
        ensures
            final(self).wf(),
            final(self).db.available_files.as_map() == apply_ops(
                old(self).db.available_files.as_map(),
                change.ops@,
            ),
            final(self).db.config == apply_ops_config(old(self).db.config, change.ops@),
    {
        self.db.apply_change(change);
    }
}

impl Default for AnalysisHost {
    /// A host over the default configuration and no files.
    fn default() -> (h: AnalysisHost)
        ensures
            h.wf(),
            h.db.available_files.entries@.len() == 0,
            h.db.config.dialect_name is Libra,
    {
        AnalysisHost {
            db: RootDatabase {
                config: crate::config::Config::default(),
                available_files: FileMap::new(),
            },
        }
    }
}

/// A frozen snapshot of the database, consumed by one compilation pass.
pub struct Analysis {
    pub db: RootDatabase,
}

impl Analysis {
    pub fn new(db: RootDatabase) -> (r: Analysis)
        ensures
            r.db == db,
    {
        Analysis { db }
    }

    /// The snapshot's database.
    pub fn db(&self) -> (r: &RootDatabase)
        ensures
            r == &self.db,
    {
        &self.db
    }

    /// The dependencies of a check of `fpath`: every module file except the
    /// current file itself.
    pub open spec fn spec_deps(&self, fpath: Seq<u8>) -> Seq<(Seq<u8>, Seq<u8>)> {
        spec_without_key(
            spec_module_entries(pair_views(self.db.available_files.entries@), self.db.config),
            fpath,
        )
    }

    /// Rewrites, strips and verifies the current file and every dependency,
    /// each file independently, and records every file's source map: the
    /// batch the compiler core will parse.
    pub fn prepare_check(&self, fpath: &Vec<u8>, text: &Vec<u8>) -> (plan: CheckPlan)
        requires
            self.db.wf(),
            text@.len() <= MAX_SOURCE_LEN,
        ensures
            plan.wf(),
            plan.files@.len() == 1 + self.spec_deps(fpath@).len(),
            plan.maps.files@[0].fpath@ == fpath@,
            plan.maps.files@[0].text@ == text@,
            forall|k: int|
                1 <= k < plan.files@.len() ==> (#[trigger] plan.maps.files@[k]).fpath@
                    == self.spec_deps(fpath@)[k - 1].0 && plan.maps.files@[k].text@
                    == self.spec_deps(fpath@)[k - 1].1,
            forall|k: int|
                0 <= k < plan.files@.len() ==> {
                    let rec = #[trigger] plan.maps.files@[k];
                    let sender = self.db.config.sender_address.normalized_original@;
                    &&& apply_layers(rec.text@, rec.map.layers@) == spec_rewritten(
                        rec.text@,
                        sender,
                    )
                    &&& layer_models(rec.map.layers@) == spec_sender_layers(rec.text@, sender)
                    &&& match spec_prepared(rec.text@, sender) {
                        Ok(s) => plan.files@[k].prepared matches Some(p) && p@ == s,
                        Err(off) => plan.files@[k].early_error matches Some(e) && {
                            &&& e.parts@.len() == 1
                            &&& e.parts@[0].fpath@ == rec.fpath@
                            &&& e.parts@[0].span.start == off
                            &&& e.parts@[0].span.end == off
                            &&& e.parts@[0].message@ == invalid_byte_message()
                        },
                    }
                },
    {
        let ghost deps_goal = self.spec_deps(fpath@);
        let dialect = self.db.config.dialect_name.get_dialect();
        let sender = &self.db.config.sender_address;
        let mut files: Vec<PlannedFile> = Vec::new();
        let mut maps = ProjectSourceMap::new();
        let (pf, rec) = parse_file(dialect, fpath, text, sender);
        files.push(pf);
        maps.push_record(rec);
        let mut deps = self.db.module_files();
        let nd = deps.len();
        let ghost deps_views = pair_views(deps@);
        let ghost n_deps = deps_views.len();
        proof {
            assert(n_deps == nd);
        }
        let mut i: usize = 0;
        let ghost mut done: Seq<(Seq<u8>, Seq<u8>)> = Seq::empty();
        proof {
            assert(deps_views.skip(0) =~= deps_views);
            assert(done + spec_without_key(deps_views, fpath@) =~= spec_without_key(
                deps_views,
                fpath@,
            ));
        }
        while deps.len() > 0
            invariant
                self.db.wf(),
                sender == &self.db.config.sender_address,
                sender.wf(),
                n_deps == deps_views.len(),
                n_deps <= usize::MAX,
                deps_goal == self.spec_deps(fpath@),
                i + deps@.len() == n_deps,
                pair_views(deps@) == deps_views.skip(i as int),
                deps_goal == spec_without_key(deps_views, fpath@),
                deps_goal == done + spec_without_key(deps_views.skip(i as int), fpath@),
                forall|j: int| 0 <= j < deps@.len() ==> (#[trigger] deps@[j]).1@.len() <= MAX_SOURCE_LEN,
                files@.len() == maps.files@.len(),
                files@.len() == 1 + done.len(),
                maps.wf(),
                maps.files@[0].fpath@ == fpath@,
                maps.files@[0].text@ == text@,
                forall|k: int| 0 <= k < files@.len() ==> (#[trigger] files@[k]).wf(),
                forall|k: int|
                    0 <= k < files@.len() ==> (#[trigger] maps.files@[k]).fpath@
                        == files@[k].fpath@,
                forall|k: int|
                    1 <= k < files@.len() ==> (#[trigger] maps.files@[k]).fpath@ == done[k - 1].0
                        && maps.files@[k].text@ == done[k - 1].1,
                forall|k: int|
                    0 <= k < files@.len() ==> {
                        let rec = #[trigger] maps.files@[k];
                        let snd = self.db.config.sender_address.normalized_original@;
                        &&& apply_layers(rec.text@, rec.map.layers@) == spec_rewritten(
                            rec.text@,
                            snd,
                        )
                        &&& layer_models(rec.map.layers@) == spec_sender_layers(rec.text@, snd)
                        &&& match spec_prepared(rec.text@, snd) {
                            Ok(s) => files@[k].prepared matches Some(p) && p@ == s,
                            Err(off) => files@[k].early_error matches Some(e) && {
                                &&& e.parts@.len() == 1
                                &&& e.parts@[0].fpath@ == rec.fpath@
                                &&& e.parts@[0].span.start == off
                                &&& e.parts@[0].span.end == off
                                &&& e.parts@[0].message@ == invalid_byte_message()
                            },
                        }
                    },
            decreases deps@.len(),
        {
            let ghost dsk = deps_views.skip(i as int);
            proof {
                assert(deps@.len() > 0);
                assert(pair_views(deps@).len() == deps@.len());
                assert(pair_views(deps@) == deps_views.skip(i as int));
                assert(dsk.len() == n_deps - i);
                assert(0 <= i < deps_views.len());
                assert(dsk.first() == deps_views[i as int]);
                assert(dsk.drop_first() =~= deps_views.skip(i + 1));
                assert(pair_views(deps@)[0] == (deps@[0].0@, deps@[0].1@));
            }
            let entry = deps.remove(0);
            proof {
                assert(pair_views(deps@) =~= deps_views.skip(i + 1));
            }
            if !bytes_eq(&entry.0, fpath) {
                let (pf, rec) = parse_file(dialect, &entry.0, &entry.1, sender);
                files.push(pf);
                maps.push_record(rec);
                proof {
                    done = done.push(deps_views[i as int]);
                    assert(done.drop_last() + (seq![dsk.first()] + spec_without_key(
                        deps_views.skip(i + 1),
                        fpath@,
                    )) =~= done + spec_without_key(deps_views.skip(i + 1), fpath@));
                }
            }
            i = i + 1;
        }
        proof {
            assert(deps_views.skip(i as int) =~= Seq::<(Seq<u8>, Seq<u8>)>::empty());
            assert(spec_without_key(deps_views.skip(i as int), fpath@) =~= Seq::<
                (Seq<u8>, Seq<u8>),
            >::empty());
            assert(done + Seq::<(Seq<u8>, Seq<u8>)>::empty() =~= done);
        }
        CheckPlan { files, maps }
    }

    /// The errors a finished batch yields: the accumulated parse-stage
    /// errors when there are any — the check stage is then skipped — and
    /// the check stage's errors otherwise.
    pub open spec fn spec_batch_errors(
        files: Seq<PlannedFile>,
        outcomes: Seq<ParseOutcome>,
        check_errors: Seq<CompilerError>,
    ) -> Seq<CompilerError> {
        let pe = spec_parse_errors(files, outcomes);
        if pe.len() > 0 {
            pe
        } else {
            check_errors
        }
    }

    /// Finishes a check from the compiler core's outcomes: no diagnostic
    /// when the batch is clean, and otherwise the first error, attributed
    /// and translated back to the original text of its own file.  A fault
    /// means some error named a file the batch never parsed.
    pub fn check_file_with_compiler(
        &self,
        plan: CheckPlan,
        parse_outcomes: Vec<ParseOutcome>,
        check_errors: Vec<CompilerError>,
    ) -> (r: Result<Option<FileDiagnostic>, TranslationFault>)
        requires
            plan.wf(),
            parse_outcomes@.len() == plan.files@.len(),
            forall|k: int|
                0 <= k < parse_outcomes@.len() ==> (#[trigger] parse_outcomes@[k]).wf(),
            forall|k: int|
                0 <= k < check_errors@.len() ==> (#[trigger] check_errors@[k]).parts@.len() >= 1,
        ensures
            ({
                let all = Analysis::spec_batch_errors(plan.files@, parse_outcomes@, check_errors@);
                match r {
                    Ok(None) => all.len() == 0,
                    Ok(Some(fd)) => all.len() > 0 && translated_ok(all[0], plan.maps.files@, fd),
                    Err(_) => exists|k: int|
                        0 <= k < all.len() && !error_files_known(
                            #[trigger] all[k],
                            plan.maps.files@,
                        ),
                }
            }),
    {
        let ghost all_files = plan.files@;
        let ghost all_outcomes = parse_outcomes@;
        let ghost all_check = check_errors@;
        let CheckPlan { files, maps } = plan;
        proof {
            lemma_parse_errors_wf(all_files, all_outcomes);
        }
        let combined = collect_parse_errors(files, parse_outcomes);
        let errs = if combined.len() > 0 {
            combined
        } else {
            check_errors
        };
        let ghost all = Analysis::spec_batch_errors(all_files, all_outcomes, all_check);
        proof {
            assert(errs@ == all);
        }
        if errs.len() == 0 {
            return Ok(None);
        }
        let mut first: Option<FileDiagnostic> = None;
        let mut k: usize = 0;
        let n = errs.len();
        while k < n
            invariant
                k <= n,
                n == errs@.len(),
                errs@ == all,
                all == Analysis::spec_batch_errors(plan.files@, parse_outcomes@, check_errors@),
                maps.files@ == plan.maps.files@,
                n >= 1,
                maps.wf(),
                forall|j: int| 0 <= j < all.len() ==> (#[trigger] all[j]).parts@.len() >= 1,
                k >= 1 ==> (first matches Some(fd) && translated_ok(all[0], maps.files@, fd)),
            decreases n - k,
        {
            match translate_error(&errs[k], &maps) {
                Ok(fd) => {
                    if k == 0 {
                        first = Some(fd);
                    }
                },
                Err(f) => {
                    proof {
                        assert(!error_files_known(all[k as int], maps.files@));
                    }
                    return Err(f);
                },
            }
            k = k + 1;
        }
        Ok(first)
    }
}

/// Every parse-stage error carries at least one fragment.
proof fn lemma_parse_errors_wf(files: Seq<PlannedFile>, outcomes: Seq<ParseOutcome>)
    requires
        forall|k: int| 0 <= k < files.len() ==> (#[trigger] files[k]).wf(),
        forall|k: int| 0 <= k < outcomes.len() ==> (#[trigger] outcomes[k]).wf(),
    ensures
        forall|k: int|
            0 <= k < spec_parse_errors(files, outcomes).len() ==> (#[trigger] spec_parse_errors(
                files,
                outcomes,
            )[k]).parts@.len() >= 1,
    decreases files.len(),
{
    if files.len() == 0 || outcomes.len() == 0 {
    } else {
        assert(files[0].wf());
        assert(outcomes[0].wf());
        assert(forall|k: int|
            0 <= k < files.drop_first().len() ==> (#[trigger] files.drop_first()[k]).wf());
        assert(forall|k: int|
            0 <= k < outcomes.drop_first().len() ==> (#[trigger] outcomes.drop_first()[k]).wf());
        lemma_parse_errors_wf(files.drop_first(), outcomes.drop_first());
        let pe = spec_parse_errors(files, outcomes);
        let rest = spec_parse_errors(files.drop_first(), outcomes.drop_first());
        assert forall|k: int| 0 <= k < pe.len() implies (#[trigger] pe[k]).parts@.len() >= 1 by {
            match files.first().early_error {
                Some(e) => {
                    assert(pe == seq![e] + rest);
                    if k == 0 {
                        assert(pe[k] == e);
                    } else {
                        assert(pe[k] == rest[k - 1]);
                    }
                },
                None => {
                    match outcomes.first() {
                        ParseOutcome::Parsed => {
                            assert(pe == Seq::<CompilerError>::empty() + rest);
                            assert(pe[k] == rest[k]);
                        },
                        ParseOutcome::Failed(errs) => {
                            assert(pe == errs@ + rest);
                            if k < errs@.len() {
                                assert(pe[k] == errs@[k]);
                            } else {
                                assert(pe[k] == rest[k - errs@.len()]);
                            }
                        },
                    }
                },
            }
        }
    }
}

} // verus!
