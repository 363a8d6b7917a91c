//! Expansion of short account-address literals to the canonical width.
//!
//! An address literal is `0x` followed by one to 32 lowercase hex digits and
//! a following byte that is not a hex digit.  Each such literal is replaced
//! by `0x`, eight zero digits and the digits left-padded with zeros to 32,
//! and one layer per substitution is recorded.

use vstd::prelude::*;

use crate::bytes::{clone_bytes, push_bytes, push_range};
use crate::rewriter::{ends_sorted, MAX_SOURCE_LEN};
use crate::source_map::{
    apply_layers, layer_applies_to, layer_models, layer_start, layers_apply, lemma_apply_push,
    spec_apply_layer, FileSourceMap, Layer,
};

verus! {

/// A lowercase hexadecimal digit.
pub open spec fn is_hex_lower(b: u8) -> bool {
    (48 <= b <= 57) || (97 <= b <= 102)
}

/// Length of the maximal run of lowercase hex digits starting at `i`.
pub open spec fn hex_run_len(t: Seq<u8>, i: int) -> int
    decreases t.len() - i,
{
    if 0 <= i < t.len() && is_hex_lower(t[i]) {
        1 + hex_run_len(t, i + 1)
    } else {
        0
    }
}

/// An address literal short enough to expand begins at offset `i`: `0x`,
/// one to 32 lowercase hex digits, and a following byte (not a hex digit).
pub open spec fn addr_match_at(t: Seq<u8>, i: int) -> bool {
    let d = hex_run_len(t, i + 2);
    &&& 0 <= i
    &&& i + 2 <= t.len()
    &&& t[i] == 48u8
    &&& t[i + 1] == 120u8
    &&& 1 <= d <= 32
    &&& i + 2 + d < t.len()
}

/// A run of `n` zero digits.
pub open spec fn zero_digits(n: int) -> Seq<u8> {
    Seq::new(if n >= 0 { n as nat } else { 0 }, |j: int| 48u8)
}

/// The canonical form of an address literal with the given digits: `0x`,
/// eight zero digits, and the digits left-padded with zeros to 32.
pub open spec fn canon_addr(digits: Seq<u8>) -> Seq<u8> {
    seq![48u8, 120u8] + zero_digits(40 - digits.len()) + digits
}

/// The text with every short address literal expanded to canonical form,
/// scanning left to right and never rescanning replaced text.
pub open spec fn spec_replace_addresses(t: Seq<u8>) -> Seq<u8>
    decreases t.len(),
{
    if t.len() == 0 {
        t
    } else if addr_match_at(t, 0) {
        canon_addr(t.subrange(2, 2 + hex_run_len(t, 2))) + spec_replace_addresses(
            t.skip(2 + hex_run_len(t, 2)),
        )
    } else {
        seq![t[0]] + spec_replace_addresses(t.skip(1))
    }
}

/// The layers the address pass records, given the length of the output
/// already produced: one layer per expanded literal, in scan order,
/// recording the end offset of its canonical replacement in the transformed
/// text and the (original, replacement) pair.
pub open spec fn spec_address_layers(t: Seq<u8>, out_len: int) -> Seq<(int, Seq<u8>, Seq<u8>)>
    decreases t.len(),
{
    if t.len() == 0 {
        Seq::empty()
    } else if addr_match_at(t, 0) {
        seq![
            (
                out_len + 42,
                t.subrange(0, 2 + hex_run_len(t, 2)),
                canon_addr(t.subrange(2, 2 + hex_run_len(t, 2))),
            ),
        ] + spec_address_layers(t.skip(2 + hex_run_len(t, 2)), out_len + 42)
    } else {
        spec_address_layers(t.skip(1), out_len + 1)
    }
}

/// Expanding addresses grows a text by at most a factor of fourteen.
pub proof fn lemma_replace_addresses_len(t: Seq<u8>)
    ensures
        spec_replace_addresses(t).len() <= 14 * t.len(),
    decreases t.len(),
{
    if t.len() == 0 {
    } else if addr_match_at(t, 0) {
        let d = hex_run_len(t, 2);
        lemma_replace_addresses_len(t.skip(2 + d));
        assert(canon_addr(t.subrange(2, 2 + d)).len() == 42);
        assert(42 + 14 * (t.len() - 2 - d) <= 14 * t.len()) by (nonlinear_arith)
            requires
                1 <= d,
                2 + d <= t.len(),
        ;
    } else {
        lemma_replace_addresses_len(t.skip(1));
    }
}

/// A hex run is the same seen from a suffix of the text.
proof fn lemma_hex_run_skip(t: Seq<u8>, s: int, j: int)
    requires
        0 <= s <= t.len(),
        0 <= j,
    ensures
        hex_run_len(t.skip(s), j) == hex_run_len(t, s + j),
    decreases t.len() - s - j,
{
    if s + j < t.len() && is_hex_lower(t[s + j]) {
        assert(t.skip(s)[j] == t[s + j]);
        lemma_hex_run_skip(t, s, j + 1);
    } else {
        if j < t.skip(s).len() {
            assert(t.skip(s)[j] == t[s + j]);
        }
    }
}

/// Whether a byte is a lowercase hex digit.
fn is_hex_byte(b: u8) -> (r: bool)
    ensures
        r == is_hex_lower(b),
{
    (48 <= b && b <= 57) || (97 <= b && b <= 102)
}

/// Length of the maximal run of lowercase hex digits starting at `i`.
fn hex_run_from(text: &Vec<u8>, i: usize) -> (d: usize)
    requires
        i <= text@.len(),
    ensures
        d as int == hex_run_len(text@, i as int),
        i + d <= text@.len(),
{
    let n = text.len();
    let mut j: usize = i;
    while j < n && is_hex_byte(text[j])
        invariant
            i <= j <= n,
            n == text@.len(),
            hex_run_len(text@, i as int) == j - i + hex_run_len(text@, j as int),
        decreases n - j,
    {
        j = j + 1;
    }
    j - i
}

/// Expands every short lowercase address literal of `source` to the
/// canonical 16-byte form, recording one layer per substitution.
pub fn replace_16_bytes_libra(source: &Vec<u8>, file_source_map: &mut FileSourceMap) -> (out: Vec<
    u8,
>)
    requires
        old(file_source_map).wf(),
        source@.len() <= MAX_SOURCE_LEN,
    ensures
        out@ == spec_replace_addresses(source@),
        final(file_source_map).wf(),
        final(file_source_map).layers@.len() >= old(file_source_map).layers@.len(),
        final(file_source_map).layers@.subrange(0, old(file_source_map).layers@.len() as int)
            == old(file_source_map).layers@,
        layers_apply(
            source@,
            final(file_source_map).layers@.skip(old(file_source_map).layers@.len() as int),
        ),
        apply_layers(
            source@,
            final(file_source_map).layers@.skip(old(file_source_map).layers@.len() as int),
        ) == out@,
        layer_models(final(file_source_map).layers@.skip(old(file_source_map).layers@.len() as int))
            == spec_address_layers(source@, 0),
        ends_sorted(final(file_source_map).layers@.skip(old(file_source_map).layers@.len() as int)),
{
    let ghost t = source@;
    let ghost base_layers = file_source_map.layers@;
    let ghost base = base_layers.len() as int;
    let ghost goal = spec_replace_addresses(t);
    let mut out: Vec<u8> = Vec::new();
    let mut i: usize = 0;
    let n = source.len();
    proof {
        lemma_replace_addresses_len(t);
        assert(usize::MAX >= 0xffff_ffffu64);
        assert(t.skip(0) =~= t);
        assert(out@ + t.skip(0) =~= t);
        assert(out@ + goal =~= goal);
        assert(file_source_map.layers@.skip(base) =~= Seq::<Layer>::empty());
        assert(file_source_map.layers@.subrange(0, base) =~= base_layers);
        assert(layers_apply(t, Seq::<Layer>::empty()));
        assert(layer_models(file_source_map.layers@.skip(base)) =~= Seq::<
            (int, Seq<u8>, Seq<u8>),
        >::empty());
        assert(layer_models(file_source_map.layers@.skip(base)) + spec_address_layers(t, 0)
            =~= spec_address_layers(t, 0));
    }
    while i < n
        invariant
            i <= n,
            n == t.len(),
            source@ == t,
            file_source_map.wf(),
            file_source_map.layers@.len() >= base,
            base == base_layers.len(),
            file_source_map.layers@.subrange(0, base) == base_layers,
            goal == spec_replace_addresses(t),
            goal.len() + t.len() <= usize::MAX,
            goal == out@ + spec_replace_addresses(t.skip(i as int)),
            layers_apply(t, file_source_map.layers@.skip(base)),
            apply_layers(t, file_source_map.layers@.skip(base)) == out@ + t.skip(i as int),
            spec_address_layers(t, 0) == layer_models(file_source_map.layers@.skip(base))
                + spec_address_layers(t.skip(i as int), out@.len() as int),
            forall|j: int|
                base <= j < file_source_map.layers@.len() ==> (
                #[trigger] file_source_map.layers@[j]).end <= out@.len(),
            ends_sorted(file_source_map.layers@.skip(base)),
        decreases n - i,
    {
        let ghost li = i as int;
        let ghost out0 = out@;
        let ghost ls0 = file_source_map.layers@;
        let ghost cur = out0 + t.skip(li);
        let mut matched = false;
        let mut d: usize = 0;
        if source[i] == 48 && n - i >= 2 {
            if source[i + 1] == 120 {
                d = hex_run_from(source, i + 2);
                proof {
                    lemma_hex_run_skip(t, li, 2);
                }
                if 1 <= d && d <= 32 && i + 2 + d < n {
                    matched = true;
                }
            }
        }
        if matched {
            let ghost dd = d as int;
            proof {
                assert(t.skip(li)[0] == t[li]);
                assert(t.skip(li)[1] == t[li + 1]);
                assert(addr_match_at(t.skip(li), 0));
                assert(t.skip(li).subrange(2, 2 + dd) =~= t.subrange(li + 2, li + 2 + dd));
                assert(spec_replace_addresses(t.skip(li)) == canon_addr(
                    t.subrange(li + 2, li + 2 + dd),
                ) + spec_replace_addresses(t.skip(li + 2 + dd))) by {
                    assert(t.skip(li).skip(2 + dd) =~= t.skip(li + 2 + dd));
                }
            }
            let ghost digits = t.subrange(li + 2, li + 2 + dd);
            let ghost repl_spec = canon_addr(digits);
            // build the canonical replacement
            let mut repl: Vec<u8> = Vec::new();
            repl.push(48);
            repl.push(120);
            let pad = 40 - d;
            let mut z: usize = 0;
            while z < pad
                invariant
                    z <= pad,
                    repl@ == seq![48u8, 120u8] + zero_digits(z as int),
                decreases pad - z,
            {
                repl.push(48);
                proof {
                    assert(seq![48u8, 120u8] + zero_digits(z + 1) =~= (seq![48u8, 120u8]
                        + zero_digits(z as int)).push(48u8));
                }
                z = z + 1;
            }
            push_range(&mut repl, source, i + 2, i + 2 + d);
            proof {
                assert(repl@ =~= repl_spec);
            }
            // the replaced span, for the layer record
            let mut orig: Vec<u8> = Vec::new();
            push_range(&mut orig, source, i, i + 2 + d);
            proof {
                assert(orig@ =~= t.subrange(li, li + 2 + dd));
            }
            let rep_copy = clone_bytes(&repl);
            proof {
                assert(goal =~= (out0 + repl_spec) + spec_replace_addresses(t.skip(li + 2 + dd)));
            }
            push_bytes(&mut out, &repl);
            let end = out.len();
            file_source_map.push_layer(end, orig, rep_copy);
            proof {
                let ghost l = file_source_map.layers@.last();
                let ghost ls1 = file_source_map.layers@;
                assert(ls1.subrange(0, base) =~= ls0.subrange(0, base));
                assert(ls1.skip(base) =~= ls0.skip(base).push(l));
                assert(l.end == out0.len() + repl_spec.len());
                assert(l.original@ == t.subrange(li, li + 2 + dd));
                assert(l.replacement@ == repl_spec);
                assert(layer_start(l) == out0.len());
                assert(layer_applies_to(cur, l)) by {
                    assert(cur.subrange(out0.len() as int, out0.len() + 2 + dd) =~= t.subrange(
                        li,
                        li + 2 + dd,
                    )) by {
                        assert(forall|k: int|
                            0 <= k < 2 + dd ==> cur[out0.len() + k] == t.skip(li)[k]);
                    }
                }
                assert(spec_apply_layer(cur, l) =~= out@ + t.skip(li + 2 + dd)) by {
                    assert(cur.subrange(0, out0.len() as int) =~= out0);
                    assert(cur.subrange(out0.len() + 2 + dd, cur.len() as int) =~= t.skip(
                        li + 2 + dd,
                    ));
                    assert(out@ =~= out0 + repl_spec);
                }
                assert(out@.len() <= goal.len());
                assert(spec_apply_layer(cur, l).len() <= usize::MAX);
                lemma_apply_push(t, ls0.skip(base), l);
                // the new layer is exactly the one the scan-order layer list demands
                assert(repl_spec.len() == 42);
                assert(spec_address_layers(t.skip(li), out0.len() as int) == seq![
                    ((out0.len() + 42) as int, t.subrange(li, li + 2 + dd), repl_spec),
                ] + spec_address_layers(t.skip(li + 2 + dd), out@.len() as int)) by {
                    assert(t.skip(li).subrange(0, 2 + dd) =~= t.subrange(li, li + 2 + dd));
                    assert(t.skip(li).skip(2 + dd) =~= t.skip(li + 2 + dd));
                    assert(out@.len() == out0.len() + 42);
                }
                assert(layer_models(ls1.skip(base)) =~= layer_models(ls0.skip(base)).push(
                    (l.end as int, t.subrange(li, li + 2 + dd), repl_spec),
                ));
                assert(layer_models(ls0.skip(base)) + (seq![
                    ((out0.len() + 42) as int, t.subrange(li, li + 2 + dd), repl_spec),
                ] + spec_address_layers(t.skip(li + 2 + dd), out@.len() as int)) =~= layer_models(
                    ls1.skip(base),
                ) + spec_address_layers(t.skip(li + 2 + dd), out@.len() as int));
            }
            i = i + 2 + d;
        } else {
            proof {
                assert(!addr_match_at(t.skip(li), 0)) by {
                    assert(t.skip(li)[0] == t[li]);
                    if t.skip(li).len() >= 2 {
                        assert(t.skip(li)[1] == t[li + 1]);
                    }
                    lemma_hex_run_skip(t, li, 2);
                }
                assert(spec_replace_addresses(t.skip(li)) == seq![t[li]] + spec_replace_addresses(
                    t.skip(li + 1),
                )) by {
                    assert(t.skip(li)[0] == t[li]);
                    assert(t.skip(li).skip(1) =~= t.skip(li + 1));
                }
                assert(goal =~= out0.push(t[li]) + spec_replace_addresses(t.skip(li + 1)));
            }
            let b = source[i];
            out.push(b);
            proof {
                assert(out@ + t.skip(li + 1) =~= cur);
                assert(spec_address_layers(t.skip(li), out0.len() as int) == spec_address_layers(
                    t.skip(li + 1),
                    out@.len() as int,
                )) by {
                    assert(t.skip(li).skip(1) =~= t.skip(li + 1));
                    assert(out@.len() == out0.len() + 1);
                }
            }
            i = i + 1;
        }
    }
    proof {
        assert(t.skip(n as int) =~= Seq::<u8>::empty());
        assert(spec_replace_addresses(Seq::<u8>::empty()) == Seq::<u8>::empty());
        assert(goal =~= out@);
        assert(out@ + t.skip(n as int) =~= out@);
        assert(spec_address_layers(t.skip(n as int), out@.len() as int) =~= Seq::<
            (int, Seq<u8>, Seq<u8>),
        >::empty());
        assert(layer_models(file_source_map.layers@.skip(base)) + Seq::<
            (int, Seq<u8>, Seq<u8>),
        >::empty() =~= layer_models(file_source_map.layers@.skip(base)));
    }
    out
}

} // verus!
