//! Comment stripping and byte verification ahead of parsing.
//!
//! The compiler core only accepts plain ASCII program text.  This pass
//! replaces comments by spaces, keeping the text length and all line breaks,
//! leaves string literals untouched, and rejects the first byte outside
//! comments and strings that is not printable ASCII, a tab or a line ending,
//! reporting its exact offset.

use vstd::prelude::*;

verus! {

/// Scanner state: plain program text, a line comment, or a string literal.
#[derive(PartialEq, Eq, Structural, Clone, Copy)]
pub enum ScanState {
    Normal,
    Line,
    Str,
}

/// Bytes permitted in plain program text: tab, line feed, carriage return
/// and printable ASCII.
pub open spec fn permitted_plain(b: u8) -> bool {
    b == 9 || b == 10 || b == 13 || (32 <= b <= 126)
}

/// Comment bytes become spaces; tabs and carriage returns survive.
pub open spec fn blanked(b: u8) -> u8 {
    if b == 9 || b == 13 {
        b
    } else {
        32u8
    }
}

/// One left-to-right scan from offset `i` in state `st`: the stripped rest
/// of the text, or the offset of the first rejected byte.
pub open spec fn spec_scan(t: Seq<u8>, i: int, st: ScanState) -> Result<Seq<u8>, int>
    decreases t.len() - i,
{
    if i < 0 || i >= t.len() {
        Ok(Seq::empty())
    } else if st is Normal {
        if t[i] == 47 && i + 1 < t.len() && t[i + 1] == 47 {
            match spec_scan(t, i + 2, ScanState::Line) {
                Ok(rest) => Ok(seq![32u8, 32u8] + rest),
                Err(e) => Err(e),
            }
        } else if t[i] == 34 {
            cons_scan(t[i], spec_scan(t, i + 1, ScanState::Str))
        } else if permitted_plain(t[i]) {
            cons_scan(t[i], spec_scan(t, i + 1, ScanState::Normal))
        } else {
            Err(i)
        }
    } else if st is Line {
        if t[i] == 10 {
            cons_scan(10u8, spec_scan(t, i + 1, ScanState::Normal))
        } else {
            cons_scan(blanked(t[i]), spec_scan(t, i + 1, ScanState::Line))
        }
    } else {
        if t[i] == 34 {
            cons_scan(34u8, spec_scan(t, i + 1, ScanState::Normal))
        } else {
            cons_scan(t[i], spec_scan(t, i + 1, ScanState::Str))
        }
    }
}

/// Prepends one emitted byte to the stripped rest of the text.
pub open spec fn cons_scan(b: u8, r: Result<Seq<u8>, int>) -> Result<Seq<u8>, int> {
    match r {
        Ok(rest) => Ok(seq![b] + rest),
        Err(e) => Err(e),
    }
}

/// The whole text, stripped and verified.
pub open spec fn spec_strip_verify(t: Seq<u8>) -> Result<Seq<u8>, int> {
    spec_scan(t, 0, ScanState::Normal)
}

/// Stripping keeps the text length.
pub proof fn lemma_scan_len(t: Seq<u8>, i: int, st: ScanState)
    requires
        0 <= i <= t.len(),
        spec_scan(t, i, st) is Ok,
    ensures
        spec_scan(t, i, st)->Ok_0.len() == t.len() - i,
    decreases t.len() - i,
{
    if i >= t.len() {
    } else if st is Normal && t[i] == 47 && i + 1 < t.len() && t[i + 1] == 47 {
        lemma_scan_len(t, i + 2, ScanState::Line);
    } else {
        let nst = if st is Normal {
            if t[i] == 34 {
                ScanState::Str
            } else {
                ScanState::Normal
            }
        } else if st is Line {
            if t[i] == 10 {
                ScanState::Normal
            } else {
                ScanState::Line
            }
        } else {
            if t[i] == 34 {
                ScanState::Normal
            } else {
                ScanState::Str
            }
        };
        lemma_scan_len(t, i + 1, nst);
    }
}

/// Strips comments to spaces and verifies that every byte outside comments
/// and strings is permitted; an offending byte is reported by its offset.
pub fn strip_comments_and_verify(text: &Vec<u8>) -> (r: Result<Vec<u8>, usize>)
    ensures
        match r {
            Ok(out) => spec_strip_verify(text@) == Ok::<Seq<u8>, int>(out@),
            Err(e) => spec_strip_verify(text@) == Err::<Seq<u8>, int>(e as int),
        },
{
    let ghost t = text@;
    let mut out: Vec<u8> = Vec::new();
    let mut st = ScanState::Normal;
    let mut i: usize = 0;
    let n = text.len();
    proof {
        assert(out@ =~= Seq::<u8>::empty());
    }
    while i < n
        invariant
            i <= n,
            n == t.len(),
            text@ == t,
            spec_scan(t, i as int, st) is Ok ==> spec_strip_verify(t) == Ok::<Seq<u8>, int>(
                out@ + spec_scan(t, i as int, st)->Ok_0,
            ),
            spec_scan(t, i as int, st) is Err ==> spec_strip_verify(t) == spec_scan(
                t,
                i as int,
                st,
            ),
        decreases n - i,
    {
        let ghost li = i as int;
        let ghost out0 = out@;
        let ghost st0 = st;
        let b = text[i];
        let mut step: usize = 1;
        match st {
            ScanState::Normal => {
                if b == 47 && i + 1 < n && text[i + 1] == 47 {
                    out.push(32);
                    out.push(32);
                    st = ScanState::Line;
                    step = 2;
                    proof {
                        assert(out@ =~= out0 + seq![32u8, 32u8]);
                    }
                } else if b == 34 {
                    out.push(34);
                    st = ScanState::Str;
                } else if b == 9 || b == 10 || b == 13 || (32 <= b && b <= 126) {
                    out.push(b);
                } else {
                    return Err(i);
                }
            },
            ScanState::Line => {
                if b == 10 {
                    out.push(10);
                    st = ScanState::Normal;
                } else if b == 9 || b == 13 {
                    out.push(b);
                } else {
                    out.push(32);
                }
            },
            ScanState::Str => {
                if b == 34 {
                    out.push(34);
                    st = ScanState::Normal;
                } else {
                    out.push(b);
                }
            },
        }
        proof {
            if step == 2 {
                if spec_scan(t, li + 2, st) is Ok {
                    assert(out0 + (seq![32u8, 32u8] + spec_scan(t, li + 2, st)->Ok_0) =~= out@
                        + spec_scan(t, li + 2, st)->Ok_0);
                }
            } else {
                let e = out@[out@.len() - 1];
                assert(spec_scan(t, li, st0) == cons_scan(e, spec_scan(t, li + 1, st)));
                if spec_scan(t, li + 1, st) is Ok {
                    assert(out0 + (seq![e] + spec_scan(t, li + 1, st)->Ok_0) =~= out@
                        + spec_scan(t, li + 1, st)->Ok_0);
                }
            }
        }
        i = i + step;
    }
    proof {
        assert(spec_scan(t, n as int, st) == Ok::<Seq<u8>, int>(Seq::empty()));
        assert(out@ + Seq::<u8>::empty() =~= out@);
    }
    Ok(out)
}

} // verus!
