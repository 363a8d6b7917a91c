//! Literal text substitution with layer recording.
//!
//! The engine scans a text left to right, replaces every occurrence of a
//! literal pattern, and appends one layer per substitution to the file's
//! source map, so that offsets of the transformed text can be translated
//! back to the original text.

use vstd::prelude::*;

use crate::bytes::{clone_bytes, is_match_at, matches_at, push_bytes};
use crate::position::{newline_free, spec_position};
use crate::source_map::{
    apply_layers, layer_applies_to, layer_model, layer_models, layer_start, layers_apply,
    layers_newline_free, lemma_apply_concat, lemma_apply_push, lemma_line_preserved,
    outside_replacements, spec_apply_layer, spec_translate, FileSourceMap, Layer,
};

verus! {

/// Largest source text the rewriting engine accepts, a machine limit that
/// keeps every transformed offset representable.
pub const MAX_SOURCE_LEN: usize = 0x0100_0000;

/// Largest sender literal the rewriting engine accepts.
pub const MAX_SENDER_LEN: usize = 64;

/// The pattern occurs somewhere in the text.
pub open spec fn contains_pattern(t: Seq<u8>, pat: Seq<u8>) -> bool {
    exists|i: int| matches_at(t, pat, i)
}

/// The sender placeholder written without surrounding spaces.
pub open spec fn sender_template_plain() -> Seq<u8> {
    seq![123u8, 123u8, 115u8, 101u8, 110u8, 100u8, 101u8, 114u8, 125u8, 125u8]
}

/// The sender placeholder written with one space on either side.
pub open spec fn sender_template_spaced() -> Seq<u8> {
    seq![123u8, 123u8, 32u8, 115u8, 101u8, 110u8, 100u8, 101u8, 114u8, 32u8, 125u8, 125u8]
}

/// The sender substitution: every plain placeholder is replaced first, then
/// every spaced one, each by the sender's original textual form.
pub open spec fn spec_substitute_sender(t: Seq<u8>, sender: Seq<u8>) -> Seq<u8> {
    spec_replace_all(
        spec_replace_all(t, sender_template_plain(), sender),
        sender_template_spaced(),
        sender,
    )
}

/// The text with every occurrence of `pat` replaced by `rep`, scanning left
/// to right and never rescanning replaced text.
pub open spec fn spec_replace_all(t: Seq<u8>, pat: Seq<u8>, rep: Seq<u8>) -> Seq<u8>
    decreases t.len(),
{
    if t.len() == 0 {
        t
    } else if pat.len() >= 1 && matches_at(t, pat, 0) {
        rep + spec_replace_all(t.skip(pat.len() as int), pat, rep)
    } else {
        seq![t[0]] + spec_replace_all(t.skip(1), pat, rep)
    }
}

/// The layers one replace-all pass records, given the length of the output
/// already produced: one layer per occurrence, in scan order, recording the
/// end offset of its replacement in the transformed text and the
/// (original, replacement) pair.
pub open spec fn spec_replace_layers(t: Seq<u8>, pat: Seq<u8>, rep: Seq<u8>, out_len: int) -> Seq<
    (int, Seq<u8>, Seq<u8>),
>
    decreases t.len(),
{
    if t.len() == 0 {
        Seq::empty()
    } else if pat.len() >= 1 && matches_at(t, pat, 0) {
        seq![(out_len + rep.len(), pat, rep)] + spec_replace_layers(
            t.skip(pat.len() as int),
            pat,
            rep,
            out_len + rep.len(),
        )
    } else {
        spec_replace_layers(t.skip(1), pat, rep, out_len + 1)
    }
}

/// The layers the sender substitution records: those of the plain pass over
/// the text, then those of the spaced pass over the plain pass's output.
pub open spec fn spec_sender_layers(t: Seq<u8>, sender: Seq<u8>) -> Seq<(int, Seq<u8>, Seq<u8>)> {
    spec_replace_layers(t, sender_template_plain(), sender, 0) + spec_replace_layers(
        spec_replace_all(t, sender_template_plain(), sender),
        sender_template_spaced(),
        sender,
        0,
    )
}

/// Layer end offsets never decrease along the recorded order.
pub open spec fn ends_sorted(layers: Seq<Layer>) -> bool {
    forall|j: int, k: int| 0 <= j < k < layers.len() ==> (#[trigger] layers[j]).end <= (
    #[trigger] layers[k]).end
}

/// Replacing with at most `c` replacement bytes per pattern byte grows a
/// text by at most the factor `c`.
pub proof fn lemma_replace_all_len_factor(t: Seq<u8>, pat: Seq<u8>, rep: Seq<u8>, c: int)
    requires
        pat.len() >= 1,
        c >= 1,
        rep.len() <= c * pat.len(),
    ensures
        spec_replace_all(t, pat, rep).len() <= c * t.len(),
    decreases t.len(),
{
    if t.len() == 0 {
    } else if matches_at(t, pat, 0) {
        lemma_replace_all_len_factor(t.skip(pat.len() as int), pat, rep, c);
        assert(rep.len() + c * (t.len() - pat.len()) <= c * t.len()) by (nonlinear_arith)
            requires
                1 <= pat.len() <= t.len(),
                rep.len() <= c * pat.len(),
        ;
    } else {
        lemma_replace_all_len_factor(t.skip(1), pat, rep, c);
        assert(1 + c * (t.len() - 1) <= c * t.len()) by (nonlinear_arith)
            requires
                t.len() >= 1,
                c >= 1,
        ;
    }
}

/// A text that holds no occurrence of the pattern is returned unchanged.
pub proof fn lemma_replace_all_absent(t: Seq<u8>, pat: Seq<u8>, rep: Seq<u8>)
    requires
        pat.len() >= 1,
        !contains_pattern(t, pat),
    ensures
        spec_replace_all(t, pat, rep) == t,
    decreases t.len(),
{
    if t.len() == 0 {
    } else {
        assert(!matches_at(t, pat, 0));
        assert(!contains_pattern(t.skip(1), pat)) by {
            if contains_pattern(t.skip(1), pat) {
                let i = choose|i: int| matches_at(t.skip(1), pat, i);
                assert(t.subrange(i + 1, i + 1 + pat.len()) =~= t.skip(1).subrange(
                    i,
                    i + pat.len(),
                ));
                assert(matches_at(t, pat, i + 1));
            }
        }
        lemma_replace_all_absent(t.skip(1), pat, rep);
        assert(seq![t[0]] + t.skip(1) =~= t);
    }
}

/// A text that spells the sender out literally is left untouched by the
/// sender substitution: a source compiled with the placeholder and the same
/// source with the sender written literally reach the compiler core as one
/// and the same text.
pub proof fn lemma_substitute_sender_stable(t: Seq<u8>, sender: Seq<u8>)
    requires
        !contains_pattern(t, sender_template_plain()),
        !contains_pattern(t, sender_template_spaced()),
    ensures
        spec_substitute_sender(t, sender) == t,
{
    lemma_replace_all_absent(t, sender_template_plain(), sender);
    lemma_replace_all_absent(t, sender_template_spaced(), sender);
}

/// Every element of a pass's layer list records the pass's pattern as the
/// original and the pass's replacement as the replacement.
proof fn lemma_replace_layers_texts(t: Seq<u8>, pat: Seq<u8>, rep: Seq<u8>, out_len: int)
    ensures
        forall|k: int|
            0 <= k < spec_replace_layers(t, pat, rep, out_len).len() ==> (
            #[trigger] spec_replace_layers(t, pat, rep, out_len)[k]).1 == pat
                && spec_replace_layers(t, pat, rep, out_len)[k].2 == rep,
    decreases t.len(),
{
    let whole = spec_replace_layers(t, pat, rep, out_len);
    if t.len() == 0 {
    } else if pat.len() >= 1 && matches_at(t, pat, 0) {
        let rest = spec_replace_layers(t.skip(pat.len() as int), pat, rep, out_len + rep.len());
        lemma_replace_layers_texts(t.skip(pat.len() as int), pat, rep, out_len + rep.len());
        assert forall|k: int|
            0 <= k < whole.len() implies (#[trigger] whole[k]).1 == pat && whole[k].2 == rep by {
            if k > 0 {
                assert(whole[k] == rest[k - 1]);
            }
        }
    } else {
        let rest = spec_replace_layers(t.skip(1), pat, rep, out_len + 1);
        lemma_replace_layers_texts(t.skip(1), pat, rep, out_len + 1);
        assert forall|k: int|
            0 <= k < whole.len() implies (#[trigger] whole[k]).1 == pat && whole[k].2 == rep by {
            assert(whole[k] == rest[k]);
        }
    }
}

/// Layers recording the sender substitution are free of line feeds whenever
/// the sender is: the placeholders hold none, and the replacement is always
/// the sender itself.
pub proof fn lemma_sender_layers_newline_free(layers: Seq<Layer>, t: Seq<u8>, sender: Seq<u8>)
    requires
        layer_models(layers) == spec_sender_layers(t, sender),
        newline_free(sender),
    ensures
        layers_newline_free(layers),
{
    let plain = sender_template_plain();
    let spaced = sender_template_spaced();
    assert(newline_free(plain)) by {
        assert(forall|j: int| 0 <= j < plain.len() ==> plain[j] != 10) by {
            assert(plain[0] != 10 && plain[1] != 10 && plain[2] != 10 && plain[3] != 10
                && plain[4] != 10 && plain[5] != 10 && plain[6] != 10 && plain[7] != 10 && plain[8]
                != 10 && plain[9] != 10);
        }
    }
    assert(newline_free(spaced)) by {
        assert(forall|j: int| 0 <= j < spaced.len() ==> spaced[j] != 10) by {
            assert(spaced[0] != 10 && spaced[1] != 10 && spaced[2] != 10 && spaced[3] != 10
                && spaced[4] != 10 && spaced[5] != 10 && spaced[6] != 10 && spaced[7] != 10
                && spaced[8] != 10 && spaced[9] != 10 && spaced[10] != 10 && spaced[11] != 10);
        }
    }
    let mid = spec_replace_all(t, plain, sender);
    let l1 = spec_replace_layers(t, plain, sender, 0);
    let l2 = spec_replace_layers(mid, spaced, sender, 0);
    lemma_replace_layers_texts(t, plain, sender, 0);
    lemma_replace_layers_texts(mid, spaced, sender, 0);
    assert(layer_models(layers) == l1 + l2);
    assert(layers.len() == (l1 + l2).len()) by {
        assert(layer_models(layers).len() == layers.len());
    }
    assert forall|i: int|
        0 <= i < layers.len() implies newline_free((#[trigger] layers[i]).original@)
            && newline_free(layers[i].replacement@) by {
        assert(layer_models(layers)[i] == layer_model(layers[i]));
        assert(layer_model(layers[i]) == (l1 + l2)[i]);
        if i < l1.len() {
            assert((l1 + l2)[i] == l1[i]);
            assert(l1[i].1 == plain && l1[i].2 == sender);
        } else {
            assert((l1 + l2)[i] == l2[i - l1.len()]);
            assert(l2[i - l1.len()].1 == spaced && l2[i - l1.len()].2 == sender);
        }
        assert(layers[i].original@ == (l1 + l2)[i].1);
        assert(layers[i].replacement@ == (l1 + l2)[i].2);
    }
}

/// Sender-template equivalence of diagnostic lines.  A source written with
/// placeholders and the same source with the sender spelled out reach the
/// compiler core as one identical text, so both yield the same raw errors;
/// an error offset outside the substituted ranges then translates, on the
/// placeholder side, to a position on the very line the literal side
/// reports.
pub proof fn lemma_sender_position_line_equivalence(
    t: Seq<u8>,
    sender: Seq<u8>,
    layers: Seq<Layer>,
    pos: int,
)
    requires
        layers_apply(t, layers),
        layer_models(layers) == spec_sender_layers(t, sender),
        newline_free(sender),
        0 <= pos <= apply_layers(t, layers).len(),
        outside_replacements(layers, pos),
    ensures
        spec_position(t, spec_translate(layers, pos)).line == spec_position(
            apply_layers(t, layers),
            pos,
        ).line,
{
    lemma_sender_layers_newline_free(layers, t, sender);
    lemma_line_preserved(t, layers, pos);
}

/// Replaces every occurrence of `pat` in `text` by `rep`, appending one
/// layer per substitution to `map`.  The new layers, applied in order to
/// `text`, reproduce exactly the returned transformed text.
pub fn replace_all(text: &Vec<u8>, pat: &Vec<u8>, rep: &Vec<u8>, map: &mut FileSourceMap) -> (out:
    Vec<u8>)
    requires
        pat@.len() >= 1,
        old(map).wf(),
        spec_replace_all(text@, pat@, rep@).len() + text@.len() <= usize::MAX,
    ensures
        out@ == spec_replace_all(text@, pat@, rep@),
        final(map).wf(),
        final(map).layers@.len() >= old(map).layers@.len(),
        final(map).layers@.subrange(0, old(map).layers@.len() as int) == old(map).layers@,
        layers_apply(text@, final(map).layers@.skip(old(map).layers@.len() as int)),
        apply_layers(text@, final(map).layers@.skip(old(map).layers@.len() as int)) == out@,
        layer_models(final(map).layers@.skip(old(map).layers@.len() as int))
            == spec_replace_layers(text@, pat@, rep@, 0),
        ends_sorted(final(map).layers@.skip(old(map).layers@.len() as int)),
{
    let ghost t = text@;
    let ghost base_layers = map.layers@;
    let ghost base = base_layers.len() as int;
    let ghost goal = spec_replace_all(t, pat@, rep@);
    let mut out: Vec<u8> = Vec::new();
    let mut i: usize = 0;
    let n = text.len();
    proof {
        assert(t.skip(0) =~= t);
        assert(out@ + t.skip(0) =~= t);
        assert(out@ + goal =~= goal);
        assert(map.layers@.skip(base) =~= Seq::<Layer>::empty());
        assert(map.layers@.subrange(0, base) =~= base_layers);
        assert(layers_apply(t, Seq::<Layer>::empty()));
        assert(apply_layers(t, Seq::<Layer>::empty()) == t);
        assert(layer_models(map.layers@.skip(base)) =~= Seq::<(int, Seq<u8>, Seq<u8>)>::empty());
        assert(layer_models(map.layers@.skip(base)) + spec_replace_layers(t, pat@, rep@, 0)
            =~= spec_replace_layers(t, pat@, rep@, 0));
    }
    while i < n
        invariant
            i <= n,
            n == t.len(),
            text@ == t,
            pat@.len() >= 1,
            map.wf(),
            map.layers@.len() >= base,
            base == base_layers.len(),
            map.layers@.subrange(0, base) == base_layers,
            goal == spec_replace_all(t, pat@, rep@),
            goal.len() + t.len() <= usize::MAX,
            goal == out@ + spec_replace_all(t.skip(i as int), pat@, rep@),
            layers_apply(t, map.layers@.skip(base)),
            apply_layers(t, map.layers@.skip(base)) == out@ + t.skip(i as int),
            spec_replace_layers(t, pat@, rep@, 0) == layer_models(map.layers@.skip(base))
                + spec_replace_layers(t.skip(i as int), pat@, rep@, out@.len() as int),
            forall|j: int|
                base <= j < map.layers@.len() ==> (#[trigger] map.layers@[j]).end <= out@.len(),
            ends_sorted(map.layers@.skip(base)),
        decreases n - i,
    {
        let ghost li = i as int;
        let ghost plen = pat@.len() as int;
        let ghost out0 = out@;
        let ghost ls0 = map.layers@;
        let ghost cur = out0 + t.skip(li);
        if is_match_at(text, pat, i) {
            proof {
                assert(matches_at(t.skip(li), pat@, 0)) by {
                    assert(t.skip(li).subrange(0, plen) =~= t.subrange(li, li + plen));
                }
                assert(spec_replace_all(t.skip(li), pat@, rep@) == rep@ + spec_replace_all(
                    t.skip(li + plen),
                    pat@,
                    rep@,
                )) by {
                    assert(t.skip(li).skip(plen) =~= t.skip(li + plen));
                }
                assert(goal =~= (out0 + rep@) + spec_replace_all(t.skip(li + plen), pat@, rep@));
            }
            push_bytes(&mut out, rep);
            let end = out.len();
            let orig = clone_bytes(pat);
            let repl = clone_bytes(rep);
            map.push_layer(end, orig, repl);
            proof {
                let ghost l = map.layers@.last();
                let ghost ls1 = map.layers@;
                assert(ls1.subrange(0, base) =~= ls0.subrange(0, base));
                assert(ls1.skip(base) =~= ls0.skip(base).push(l));
                assert(l.end == out0.len() + rep@.len());
                assert(l.original@ == pat@);
                assert(l.replacement@ == rep@);
                assert(layer_start(l) == out0.len());
                // the layer matches the conceptual current text
                assert(layer_applies_to(cur, l)) by {
                    assert(cur.subrange(out0.len() as int, out0.len() + plen) =~= pat@) by {
                        assert(forall|k: int|
                            0 <= k < plen ==> cur[out0.len() + k] == t.skip(li)[k]);
                        assert(t.subrange(li, li + plen) == pat@);
                        assert(forall|k: int|
                            0 <= k < plen ==> t.skip(li)[k] == t.subrange(li, li + plen)[k]);
                    }
                }
                // applying it yields the new conceptual current text
                assert(spec_apply_layer(cur, l) =~= out@ + t.skip(li + plen)) by {
                    assert(cur.subrange(0, out0.len() as int) =~= out0);
                    assert(cur.subrange(out0.len() + plen, cur.len() as int) =~= t.skip(li + plen));
                    assert(out@ =~= out0 + rep@);
                }
                assert(out@.len() <= goal.len());
                assert(spec_apply_layer(cur, l).len() <= usize::MAX);
                lemma_apply_push(t, ls0.skip(base), l);
                assert(layers_apply(t, ls1.skip(base)));
                assert(apply_layers(t, ls1.skip(base)) == out@ + t.skip(li + plen));
                // the new layer is exactly the one the scan-order layer list demands
                assert(spec_replace_layers(t.skip(li), pat@, rep@, out0.len() as int) == seq![
                    ((out0.len() + rep@.len()) as int, pat@, rep@),
                ] + spec_replace_layers(t.skip(li + plen), pat@, rep@, out@.len() as int)) by {
                    assert(t.skip(li).skip(plen) =~= t.skip(li + plen));
                    assert(out@.len() == out0.len() + rep@.len());
                }
                assert(layer_models(ls1.skip(base)) =~= layer_models(ls0.skip(base)).push(
                    (l.end as int, pat@, rep@),
                ));
                assert(layer_models(ls0.skip(base)) + (seq![((out0.len() + rep@.len()) as int, pat@, rep@)]
                    + spec_replace_layers(t.skip(li + plen), pat@, rep@, out@.len() as int))
                    =~= layer_models(ls1.skip(base)) + spec_replace_layers(
                    t.skip(li + plen),
                    pat@,
                    rep@,
                    out@.len() as int,
                ));
            }
            i = i + pat.len();
        } else {
            proof {
                assert(!matches_at(t.skip(li), pat@, 0)) by {
                    if li + plen <= t.len() {
                        assert(t.skip(li).subrange(0, plen) =~= t.subrange(li, li + plen));
                    }
                }
                assert(spec_replace_all(t.skip(li), pat@, rep@) == seq![t[li]]
                    + spec_replace_all(t.skip(li + 1), pat@, rep@)) by {
                    assert(t.skip(li)[0] == t[li]);
                    assert(t.skip(li).skip(1) =~= t.skip(li + 1));
                }
                assert(goal =~= out0.push(t[li]) + spec_replace_all(t.skip(li + 1), pat@, rep@));
            }
            let b = text[i];
            out.push(b);
            proof {
                assert(out@ + t.skip(li + 1) =~= cur);
                assert(spec_replace_layers(t.skip(li), pat@, rep@, out0.len() as int)
                    == spec_replace_layers(t.skip(li + 1), pat@, rep@, out@.len() as int)) by {
                    assert(t.skip(li).skip(1) =~= t.skip(li + 1));
                    assert(out@.len() == out0.len() + 1);
                }
            }
            i = i + 1;
        }
    }
    proof {
        assert(t.skip(n as int) =~= Seq::<u8>::empty());
        assert(spec_replace_all(Seq::<u8>::empty(), pat@, rep@) == Seq::<u8>::empty()) by {
            assert(Seq::<u8>::empty().len() == 0);
        }
        assert(goal =~= out@);
        assert(out@ + t.skip(n as int) =~= out@);
        assert(spec_replace_layers(t.skip(n as int), pat@, rep@, out@.len() as int) =~= Seq::<
            (int, Seq<u8>, Seq<u8>),
        >::empty());
        assert(layer_models(map.layers@.skip(base)) + Seq::<(int, Seq<u8>, Seq<u8>)>::empty()
            =~= layer_models(map.layers@.skip(base)));
    }
    out
}

/// Builds the plain `{{sender}}` placeholder.
fn template_plain() -> (v: Vec<u8>)
    ensures
        v@ == sender_template_plain(),
{
    let mut v: Vec<u8> = Vec::new();
    v.push(123);
    v.push(123);
    v.push(115);
    v.push(101);
    v.push(110);
    v.push(100);
    v.push(101);
    v.push(114);
    v.push(125);
    v.push(125);
    proof {
        assert(v@ =~= sender_template_plain());
    }
    v
}

/// Builds the spaced `{{ sender }}` placeholder.
fn template_spaced() -> (v: Vec<u8>)
    ensures
        v@ == sender_template_spaced(),
{
    let mut v: Vec<u8> = Vec::new();
    v.push(123);
    v.push(123);
    v.push(32);
    v.push(115);
    v.push(101);
    v.push(110);
    v.push(100);
    v.push(101);
    v.push(114);
    v.push(32);
    v.push(125);
    v.push(125);
    proof {
        assert(v@ =~= sender_template_spaced());
    }
    v
}

/// Replaces every occurrence of the sender placeholder, with or without
/// surrounding spaces, by the sender's original textual form, recording one
/// layer per substitution.
pub fn replace_sender_placeholder(text: &Vec<u8>, sender: &Vec<u8>, map: &mut FileSourceMap) -> (out:
    Vec<u8>)
    requires
        old(map).wf(),
        1 <= sender@.len() <= MAX_SENDER_LEN,
        text@.len() <= MAX_SOURCE_LEN,
    ensures
        out@ == spec_substitute_sender(text@, sender@),
        out@.len() <= 49 * text@.len(),
        final(map).wf(),
        final(map).layers@.len() >= old(map).layers@.len(),
        final(map).layers@.subrange(0, old(map).layers@.len() as int) == old(map).layers@,
        layers_apply(text@, final(map).layers@.skip(old(map).layers@.len() as int)),
        apply_layers(text@, final(map).layers@.skip(old(map).layers@.len() as int)) == out@,
        layer_models(final(map).layers@.skip(old(map).layers@.len() as int)) == spec_sender_layers(
            text@,
            sender@,
        ),
{
    let ghost base_layers = map.layers@;
    let ghost base = base_layers.len() as int;
    let t1 = template_plain();
    let t2 = template_spaced();
    proof {
        lemma_replace_all_len_factor(text@, t1@, sender@, 7);
        assert(usize::MAX >= 0xffff_ffffu64);
    }
    let mid = replace_all(text, &t1, sender, map);
    let ghost mid_layers = map.layers@;
    proof {
        lemma_replace_all_len_factor(mid@, t2@, sender@, 6);
    }
    let out = replace_all(&mid, &t2, sender, map);
    proof {
        let l1 = mid_layers.skip(base);
        let l2 = map.layers@.skip(mid_layers.len() as int);
        assert(map.layers@.subrange(0, base) =~= base_layers) by {
            assert(map.layers@.subrange(0, mid_layers.len() as int).subrange(0, base)
                =~= map.layers@.subrange(0, base));
        }
        assert(map.layers@.skip(base) =~= l1 + l2) by {
            assert(map.layers@.subrange(0, mid_layers.len() as int).skip(base) =~= l1);
        }
        lemma_apply_concat(text@, l1, l2);
        assert(layer_models(map.layers@.skip(base)) =~= layer_models(l1) + layer_models(l2));
    }
    out
}

} // verus!
