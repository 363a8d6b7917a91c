//! Compiler-core errors and their translation to user-facing diagnostics.
//!
//! A raw error is an ordered list of (file, span, message) fragments whose
//! spans are byte offsets of the transformed texts.  The error is attributed
//! to the file of its first fragment; that fragment's span, translated back
//! through the file's source map, gives the diagnostic range, and every
//! remaining fragment becomes a related location translated through its own
//! file's map.  A fragment naming a file that was never parsed in the batch
//! is a bookkeeping fault, not a user-facing condition.

use vstd::prelude::*;

use crate::bytes::clone_bytes;
use crate::position::{offset_to_position, spec_position, Position, Range};
use crate::source_map::{
    apply_layers, layers_apply, lemma_translate_range, spec_translate, FileSourceMap,
};

verus! {

/// A byte-offset span in a transformed text, end exclusive.
#[derive(PartialEq, Eq, Structural, Clone, Copy, Debug)]
pub struct Span {
    pub start: usize,
    pub end: usize,
}

/// One fragment of a raw compiler error.
pub struct ErrorPart {
    pub fpath: Vec<u8>,
    pub span: Span,
    pub message: Vec<u8>,
}

/// A raw compiler error: one or more ordered fragments, possibly across
/// several files.
pub struct CompilerError {
    pub parts: Vec<ErrorPart>,
}

/// A fragment of a diagnostic pointing into another location.
pub struct RelatedLocation {
    pub fpath: Vec<u8>,
    pub range: Range,
    pub message: Vec<u8>,
}

/// A user-facing diagnostic, with positions in the original text.
pub struct Diagnostic {
    pub range: Range,
    pub message: Vec<u8>,
    pub related: Vec<RelatedLocation>,
}

/// A per-file diagnostic record; `None` clears the file's diagnostics.
pub struct FileDiagnostic {
    pub fpath: Vec<u8>,
    pub diagnostic: Option<Diagnostic>,
}

impl FileDiagnostic {
    /// A clear-only record for the file.
    pub fn new_empty(fpath: &Vec<u8>) -> (r: FileDiagnostic)
        ensures
            r.fpath@ == fpath@,
            r.diagnostic is None,
    {
        FileDiagnostic { fpath: clone_bytes(fpath), diagnostic: None }
    }
}

/// One file of a parsed batch: its original text, the source map the
/// rewrites recorded, and the length of the transformed text.
pub struct BatchRecord {
    pub fpath: Vec<u8>,
    pub text: Vec<u8>,
    pub map: FileSourceMap,
    pub transformed_len: usize,
}

impl BatchRecord {
    /// The map's layers really transform the original text into a text of
    /// the recorded length.
    pub open spec fn wf(&self) -> bool {
        &&& self.map.wf()
        &&& layers_apply(self.text@, self.map.layers@)
        &&& apply_layers(self.text@, self.map.layers@).len() == self.transformed_len as int
    }
}

/// The source maps of every file parsed in one batch, whether or not the
/// parse succeeded.
pub struct ProjectSourceMap {
    pub files: Vec<BatchRecord>,
}

/// Index of the first record for `path`, or -1 when the batch never parsed
/// that file.
pub open spec fn spec_find_idx(files: Seq<BatchRecord>, path: Seq<u8>) -> int
    decreases files.len(),
{
    if files.len() == 0 {
        -1
    } else if files.first().fpath@ == path {
        0
    } else {
        let r = spec_find_idx(files.drop_first(), path);
        if r < 0 {
            -1
        } else {
            r + 1
        }
    }
}

/// What a found index means.
pub proof fn lemma_find_idx(files: Seq<BatchRecord>, path: Seq<u8>)
    ensures
        spec_find_idx(files, path) >= 0 ==> {
            &&& spec_find_idx(files, path) < files.len()
            &&& files[spec_find_idx(files, path)].fpath@ == path
        },
    decreases files.len(),
{
    if files.len() > 0 && files.first().fpath@ != path {
        lemma_find_idx(files.drop_first(), path);
    }
}

impl ProjectSourceMap {
    /// Every record is well formed.
    pub open spec fn wf(&self) -> bool {
        forall|i: int| 0 <= i < self.files@.len() ==> (#[trigger] self.files@[i]).wf()
    }

    pub fn new() -> (r: Self)
        ensures
            r.files@ == Seq::<BatchRecord>::empty(),
            r.wf(),
    {
        let r = ProjectSourceMap { files: Vec::new() };
        proof {
            assert(r.files@ =~= Seq::<BatchRecord>::empty());
        }
        r
    }

    /// Adds the record of one parsed file.
    pub fn push_record(&mut self, rec: BatchRecord)
        requires
            old(self).wf(),
            rec.wf(),
        ensures
            final(self).files@ == old(self).files@.push(rec),
            final(self).wf(),
    {
        self.files.push(rec);
    }

    /// Finds the first record for `path`.
    pub fn find_idx(&self, path: &Vec<u8>) -> (r: Option<usize>)
        ensures
            match r {
                Some(i) => i as int == spec_find_idx(self.files@, path@),
                None => spec_find_idx(self.files@, path@) < 0,
            },
    {
        let ghost files = self.files@;
        let n = self.files.len();
        let mut i: usize = 0;
        proof {
            assert(files.skip(0) =~= files);
        }
        while i < n
            invariant
                i <= n,
                n == files.len(),
                self.files@ == files,
                spec_find_idx(files, path@) >= 0 ==> spec_find_idx(files, path@) >= i,
                spec_find_idx(files.skip(i as int), path@) >= 0 ==> spec_find_idx(files, path@)
                    == i + spec_find_idx(files.skip(i as int), path@),
                spec_find_idx(files.skip(i as int), path@) < 0 ==> spec_find_idx(files, path@) < 0,
            decreases n - i,
        {
            proof {
                assert(files.skip(i as int).first() == files[i as int]);
                assert(files.skip(i as int).drop_first() =~= files.skip(i + 1));
            }
            if crate::bytes::bytes_eq(&self.files[i].fpath, path) {
                return Some(i);
            }
            i = i + 1;
        }
        proof {
            assert(files.skip(n as int) =~= Seq::<BatchRecord>::empty());
        }
        None
    }
}

/// The transformed offset clamped to the transformed text.
pub open spec fn spec_clamp(off: int, n: int) -> int {
    if off > n {
        n
    } else {
        off
    }
}

/// The original-text offset a transformed offset translates to.
pub open spec fn spec_translated_offset(rec: BatchRecord, off: int) -> int {
    spec_translate(rec.map.layers@, spec_clamp(off, rec.transformed_len as int))
}

/// The original-text range a transformed span translates to.
pub open spec fn spec_part_range(rec: BatchRecord, span: Span) -> Range {
    Range {
        start: spec_position(rec.text@, spec_translated_offset(rec, span.start as int)),
        end: spec_position(rec.text@, spec_translated_offset(rec, span.end as int)),
    }
}

/// Translates one transformed offset of the record's file to a position in
/// its original text.
fn translate_position(rec: &BatchRecord, off: usize) -> (p: Position)
    requires
        rec.wf(),
    ensures
        p == spec_position(rec.text@, spec_translated_offset(*rec, off as int)),
{
    let o = if off > rec.transformed_len {
        rec.transformed_len
    } else {
        off
    };
    proof {
        lemma_translate_range(rec.text@, rec.map.layers@, o as int);
    }
    let orig = rec.map.translate_offset(o);
    offset_to_position(&rec.text, orig)
}

/// A fragment referenced a file the batch never parsed: the compilation and
/// the source-map bookkeeping desynchronized.
#[derive(Debug)]
pub struct TranslationFault {
    pub fpath: Vec<u8>,
}

/// Every fragment of the error names a file of the batch.
pub open spec fn error_files_known(err: CompilerError, files: Seq<BatchRecord>) -> bool {
    forall|k: int|
        0 <= k < err.parts@.len() ==> spec_find_idx(files, (#[trigger] err.parts@[k]).fpath@) >= 0
}

/// The diagnostic is the faithful translation of the error: attributed to
/// the file of the first fragment, its range translated through that file's
/// own source map, and one related location per remaining fragment, each
/// translated through its own file's map.
pub open spec fn translated_ok(err: CompilerError, files: Seq<BatchRecord>, fd: FileDiagnostic) -> bool {
    &&& error_files_known(err, files)
    &&& fd.fpath@ == err.parts@[0].fpath@
    &&& fd.diagnostic matches Some(d) && {
        &&& d.range == spec_part_range(
            files[spec_find_idx(files, err.parts@[0].fpath@)],
            err.parts@[0].span,
        )
        &&& d.message@ == err.parts@[0].message@
        &&& d.related@.len() == err.parts@.len() - 1
        &&& forall|k: int|
            1 <= k < err.parts@.len() ==> {
                let rl = #[trigger] d.related@[k - 1];
                &&& rl.fpath@ == err.parts@[k].fpath@
                &&& rl.message@ == err.parts@[k].message@
                &&& rl.range == spec_part_range(
                    files[spec_find_idx(files, err.parts@[k].fpath@)],
                    err.parts@[k].span,
                )
            }
    }
}

/// Translates one raw error into a diagnostic attributed to the file of its
/// first fragment; the remaining fragments become related locations, each
/// translated through its own file's map.
pub fn translate_error(err: &CompilerError, maps: &ProjectSourceMap) -> (r: Result<
    FileDiagnostic,
    TranslationFault,
>)
    requires
        maps.wf(),
        err.parts@.len() >= 1,
    ensures
        match r {
            Ok(fd) => translated_ok(*err, maps.files@, fd),
            Err(fault) => !error_files_known(*err, maps.files@),
        },
{
    let ghost files = maps.files@;
    let ghost parts = err.parts@;
    let first = &err.parts[0];
    let idx0 = match maps.find_idx(&first.fpath) {
        Some(i) => i,
        None => {
            return Err(TranslationFault { fpath: clone_bytes(&first.fpath) });
        },
    };
    proof {
        lemma_find_idx(files, first.fpath@);
    }
    let rec0 = &maps.files[idx0];
    let start = translate_position(rec0, first.span.start);
    let end = translate_position(rec0, first.span.end);
    let range = Range { start, end };
    let mut related: Vec<RelatedLocation> = Vec::new();
    let mut k: usize = 1;
    let n = err.parts.len();
    while k < n
        invariant
            1 <= k <= n,
            n == parts.len(),
            err.parts@ == parts,
            maps.files@ == files,
            maps.wf(),
            related@.len() == k - 1,
            forall|j: int|
                1 <= j < k ==> spec_find_idx(files, (#[trigger] parts[j]).fpath@) >= 0,
            forall|j: int|
                1 <= j < k ==> {
                    let rl = #[trigger] related@[j - 1];
                    &&& rl.fpath@ == parts[j].fpath@
                    &&& rl.message@ == parts[j].message@
                    &&& rl.range == spec_part_range(
                        files[spec_find_idx(files, parts[j].fpath@)],
                        parts[j].span,
                    )
                },
        decreases n - k,
    {
        let part = &err.parts[k];
        let idx = match maps.find_idx(&part.fpath) {
            Some(i) => i,
            None => {
                return Err(TranslationFault { fpath: clone_bytes(&part.fpath) });
            },
        };
        proof {
            lemma_find_idx(files, part.fpath@);
        }
        let rec = &maps.files[idx];
        let rstart = translate_position(rec, part.span.start);
        let rend = translate_position(rec, part.span.end);
        related.push(
            RelatedLocation {
                fpath: clone_bytes(&part.fpath),
                range: Range { start: rstart, end: rend },
                message: clone_bytes(&part.message),
            },
        );
        k = k + 1;
    }
    let d = Diagnostic { range, message: clone_bytes(&first.message), related };
    Ok(FileDiagnostic { fpath: clone_bytes(&first.fpath), diagnostic: Some(d) })
}

} // verus!
