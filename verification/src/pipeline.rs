//! The per-file front of the compilation pipeline.
//!
//! Each file is rewritten (sender substitution, then the dialect's address
//! reformatting), stripped and verified, independently of every other file.
//! A file that fails verification contributes one error; the batch decision
//! of what reaches the compiler core is taken over all files at once.

use vstd::prelude::*;

use crate::bytes::clone_bytes;
use crate::dialects::{LibraDialect, ProvidedAccountAddress};
use crate::errors::{BatchRecord, CompilerError, ErrorPart, Span};
use crate::rewriter::{
    replace_sender_placeholder, spec_sender_layers, spec_substitute_sender, MAX_SOURCE_LEN,
};
use crate::source_map::{layer_models, FileSourceMap};
use crate::verify_text::{lemma_scan_len, spec_strip_verify, strip_comments_and_verify, ScanState};

verus! {

/// The text a file's rewriting produces, before stripping.
pub open spec fn spec_rewritten(t: Seq<u8>, sender: Seq<u8>) -> Seq<u8> {
    spec_substitute_sender(t, sender)
}

/// The stripped, verified text the compiler core receives, or the offset of
/// the first rejected byte, in transformed coordinates.
pub open spec fn spec_prepared(t: Seq<u8>, sender: Seq<u8>) -> Result<Seq<u8>, int> {
    spec_strip_verify(spec_rewritten(t, sender))
}

/// The message attached to a rejected byte.
pub open spec fn invalid_byte_message() -> Seq<u8> {
    seq![
        105u8,
        110u8,
        118u8,
        97u8,
        108u8,
        105u8,
        100u8,
        32u8,
        99u8,
        104u8,
        97u8,
        114u8,
        97u8,
        99u8,
        116u8,
        101u8,
        114u8,
    ]
}

/// Builds the rejected-byte message.
fn invalid_byte_message_vec() -> (v: Vec<u8>)
    ensures
        v@ == invalid_byte_message(),
{
    let mut v: Vec<u8> = Vec::new();
    v.push(105);
    v.push(110);
    v.push(118);
    v.push(97);
    v.push(108);
    v.push(105);
    v.push(100);
    v.push(32);
    v.push(99);
    v.push(104);
    v.push(97);
    v.push(114);
    v.push(97);
    v.push(99);
    v.push(116);
    v.push(101);
    v.push(114);
    proof {
        assert(v@ =~= invalid_byte_message());
    }
    v
}

/// One file of a planned batch: either the prepared text for the compiler
/// core, or the verification error that rejected the file.
pub struct PlannedFile {
    pub fpath: Vec<u8>,
    pub prepared: Option<Vec<u8>>,
    pub early_error: Option<CompilerError>,
}

impl PlannedFile {
    /// Exactly one side is filled, and an error is one fragment pointing
    /// into this very file.
    pub open spec fn wf(&self) -> bool {
        &&& (self.prepared is Some) <==> (self.early_error is None)
        &&& (self.early_error matches Some(e) ==> {
            &&& e.parts@.len() == 1
            &&& e.parts@[0].fpath@ == self.fpath@
        })
    }
}

/// Rewrites, strips and verifies one file under the configured sender, and
/// records the file's source map.
pub fn parse_file(
    dialect: LibraDialect,
    fpath: &Vec<u8>,
    text: &Vec<u8>,
    sender: &ProvidedAccountAddress,
) -> (r: (PlannedFile, BatchRecord))
    requires
        text@.len() <= MAX_SOURCE_LEN,
        sender.wf(),
    ensures
        r.0.wf(),
        r.0.fpath@ == fpath@,
        r.1.wf(),
        r.1.fpath@ == fpath@,
        r.1.text@ == text@,
        crate::source_map::apply_layers(text@, r.1.map.layers@) == spec_rewritten(
            text@,
            sender.normalized_original@,
        ),
        layer_models(r.1.map.layers@) == spec_sender_layers(text@, sender.normalized_original@),
        match spec_prepared(text@, sender.normalized_original@) {
            Ok(stripped) => r.0.prepared matches Some(p) && p@ == stripped && p@.len()
                == r.1.transformed_len,
            Err(off) => r.0.early_error matches Some(e) && {
                &&& e.parts@.len() == 1
                &&& e.parts@[0].fpath@ == fpath@
                &&& e.parts@[0].span.start == off
                &&& e.parts@[0].span.end == off
                &&& e.parts@[0].message@ == invalid_byte_message()
            },
        },
{
    let mut map = FileSourceMap::new();
    let sender_text = clone_bytes(&sender.normalized_original);
    let rewritten = replace_sender_placeholder(text, &sender_text, &mut map);
    proof {
        assert(map.layers@.skip(0) =~= map.layers@);
    }
    let rewritten = dialect.replace_addresses(&rewritten, &mut map);
    let transformed_len = rewritten.len();
    let rec = BatchRecord {
        fpath: clone_bytes(fpath),
        text: clone_bytes(text),
        map,
        transformed_len,
    };
    match strip_comments_and_verify(&rewritten) {
        Ok(stripped) => {
            proof {
                // stripping keeps the text length, so spans of the stripped
                // text clamp against the recorded transformed length
                lemma_scan_len(rewritten@, 0, ScanState::Normal);
            }
            let pf = PlannedFile {
                fpath: clone_bytes(fpath),
                prepared: Some(stripped),
                early_error: None,
            };
            (pf, rec)
        },
        Err(off) => {
            let part = ErrorPart {
                fpath: clone_bytes(fpath),
                span: Span { start: off, end: off },
                message: invalid_byte_message_vec(),
            };
            let mut parts: Vec<ErrorPart> = Vec::new();
            parts.push(part);
            let err = CompilerError { parts };
            let pf = PlannedFile {
                fpath: clone_bytes(fpath),
                prepared: None,
                early_error: Some(err),
            };
            (pf, rec)
        },
    }
}

/// What the compiler core's parser reported for one prepared file; a file
/// rejected before parsing carries its own error instead and its outcome is
/// ignored.
pub enum ParseOutcome {
    Parsed,
    Failed(Vec<CompilerError>),
}

impl ParseOutcome {
    /// Reported errors carry at least one fragment.
    pub open spec fn wf(&self) -> bool {
        match self {
            ParseOutcome::Parsed => true,
            ParseOutcome::Failed(errs) => {
                &&& errs@.len() >= 1
                &&& forall|k: int| 0 <= k < errs@.len() ==> (#[trigger] errs@[k]).parts@.len() >= 1
            },
        }
    }
}

/// The parse-stage errors of a batch, in file order: a rejected file
/// contributes its verification error, a file the parser refused
/// contributes the parser's errors, in order.
pub open spec fn spec_parse_errors(files: Seq<PlannedFile>, outcomes: Seq<ParseOutcome>) -> Seq<
    CompilerError,
>
    decreases files.len(),
{
    if files.len() == 0 || outcomes.len() == 0 {
        Seq::empty()
    } else {
        let head: Seq<CompilerError> = match files.first().early_error {
            Some(e) => seq![e],
            None => match outcomes.first() {
                ParseOutcome::Parsed => Seq::empty(),
                ParseOutcome::Failed(errs) => errs@,
            },
        };
        head + spec_parse_errors(files.drop_first(), outcomes.drop_first())
    }
}

/// Collects the parse-stage errors of a batch: every file is considered,
/// in order, and one file's failure never suppresses another's.
pub fn collect_parse_errors(files: Vec<PlannedFile>, outcomes: Vec<ParseOutcome>) -> (errs: Vec<
    CompilerError,
>)
    requires
        files@.len() == outcomes@.len(),
    ensures
        errs@ == spec_parse_errors(files@, outcomes@),
{
    let ghost files0 = files@;
    let ghost outcomes0 = outcomes@;
    let mut errs: Vec<CompilerError> = Vec::new();
    let mut files = files;
    let mut outcomes = outcomes;
    let mut i: usize = 0;
    let n = files.len();
    proof {
        assert(files@ =~= files0.skip(0));
        assert(outcomes@ =~= outcomes0.skip(0));
        assert(errs@ + spec_parse_errors(files0, outcomes0) =~= spec_parse_errors(
            files0,
            outcomes0,
        ));
    }
    while i < n
        invariant
            i <= n,
            n == files0.len(),
            files0.len() == outcomes0.len(),
            files@ == files0.skip(i as int),
            outcomes@ == outcomes0.skip(i as int),
            spec_parse_errors(files0, outcomes0) == errs@ + spec_parse_errors(files@, outcomes@),
        decreases n - i,
    {
        let ghost errs0 = errs@;
        let ghost fsk = files0.skip(i as int);
        let ghost osk = outcomes0.skip(i as int);
        proof {
            assert(fsk.first() == files0[i as int]);
            assert(fsk.drop_first() =~= files0.skip(i + 1));
            assert(osk.drop_first() =~= outcomes0.skip(i + 1));
        }
        let f = files.remove(0);
        let o = outcomes.remove(0);
        proof {
            assert(files@ =~= files0.skip(i + 1));
            assert(outcomes@ =~= outcomes0.skip(i + 1));
        }
        match f.early_error {
            Some(e) => {
                let ghost ev = e;
                errs.push(e);
                proof {
                    assert(fsk.first().early_error == Some(ev));
                    assert(errs@ =~= errs0 + seq![ev]);
                }
            },
            None => {
                match o {
                    ParseOutcome::Parsed => {
                        proof {
                            assert(errs@ =~= errs0 + Seq::<CompilerError>::empty());
                        }
                    },
                    ParseOutcome::Failed(mut core_errs) => {
                        let ghost ce = core_errs@;
                        let mut k: usize = 0;
                        let m = core_errs.len();
                        while k < m
                            invariant
                                k <= m,
                                m == ce.len(),
                                core_errs@ == ce.skip(k as int),
                                errs@ == errs0 + ce.take(k as int),
                            decreases m - k,
                        {
                            proof {
                                assert(ce.skip(k as int)[0] == ce[k as int]);
                                assert(ce.take(k + 1) =~= ce.take(k as int).push(ce[k as int]));
                            }
                            let e = core_errs.remove(0);
                            proof {
                                assert(core_errs@ =~= ce.skip(k + 1));
                                assert(errs0 + ce.take(k + 1) =~= (errs0 + ce.take(
                                    k as int,
                                )).push(ce[k as int]));
                            }
                            errs.push(e);
                            k = k + 1;
                        }
                        proof {
                            assert(ce.take(m as int) =~= ce);
                        }
                    },
                }
            },
        }
        proof {
            assert(errs0 + (spec_parse_errors(fsk, osk)) =~= errs@ + spec_parse_errors(
                files0.skip(i + 1),
                outcomes0.skip(i + 1),
            ));
        }
        i = i + 1;
    }
    proof {
        assert(files@ =~= Seq::<PlannedFile>::empty());
        assert(spec_parse_errors(files@, outcomes@) =~= Seq::<CompilerError>::empty());
        assert(errs@ + Seq::<CompilerError>::empty() =~= errs@);
    }
    errs
}

} // verus!
