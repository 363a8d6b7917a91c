//! Replacement layers and the position-translation algorithm.
//!
//! A rewrite pass replaces spans of a text and records one `Layer` per
//! substitution: the end offset of the replacement in the text as it stood
//! right after that substitution, together with the original and the
//! replacement bytes.  Translating an offset of the fully transformed text
//! back to the original text inverts the layers in reverse application
//! order.

use vstd::prelude::*;

use crate::position::{
    count_newlines, lemma_count_newlines_congruent, lemma_count_newlines_concat,
    lemma_count_newlines_split, lemma_count_newlines_zero, newline_free,
};

verus! {

/// One recorded substitution: `original` was replaced by `replacement`,
/// and the replacement ends at offset `end` of the text as it stood right
/// after this substitution.
pub struct Layer {
    pub end: usize,
    pub original: Vec<u8>,
    pub replacement: Vec<u8>,
}

/// A layer is well formed when its replacement fits before its end offset.
pub open spec fn layer_wf(l: Layer) -> bool {
    l.replacement@.len() <= l.end
}

/// Offset at which the replaced span starts; the start is the same in the
/// text before and after the substitution.
pub open spec fn layer_start(l: Layer) -> int {
    l.end - l.replacement@.len()
}

/// Inverts one layer: positions at or after the recorded end offset are
/// shifted by the length delta; positions inside the replacement map to the
/// start boundary of the original span; earlier positions are unchanged.
pub open spec fn spec_translate_one(l: Layer, pos: int) -> int {
    if pos >= l.end {
        pos - l.replacement@.len() + l.original@.len()
    } else if pos >= layer_start(l) {
        layer_start(l)
    } else {
        pos
    }
}

/// Inverts a whole sequence of layers, most recently applied first.
pub open spec fn spec_translate(layers: Seq<Layer>, pos: int) -> int
    decreases layers.len(),
{
    if layers.len() == 0 {
        pos
    } else {
        spec_translate(layers.drop_last(), spec_translate_one(layers.last(), pos))
    }
}

/// Every intermediate offset of the translation stays representable in a
/// `usize`, so the executable translation computes exactly `spec_translate`.
pub open spec fn translate_in_range(layers: Seq<Layer>, pos: int) -> bool
    decreases layers.len(),
{
    if layers.len() == 0 {
        true
    } else {
        let q = spec_translate_one(layers.last(), pos);
        q <= usize::MAX && translate_in_range(layers.drop_last(), q)
    }
}

/// The layer matches the text it is applied to: the original span lies
/// inside the text and holds the original bytes.
pub open spec fn layer_applies_to(t: Seq<u8>, l: Layer) -> bool {
    &&& layer_wf(l)
    &&& layer_start(l) + l.original@.len() <= t.len()
    &&& t.subrange(layer_start(l), layer_start(l) + l.original@.len()) == l.original@
}

/// The text right after applying one substitution.
pub open spec fn spec_apply_layer(t: Seq<u8>, l: Layer) -> Seq<u8> {
    t.subrange(0, layer_start(l)) + l.replacement@ + t.subrange(
        layer_start(l) + l.original@.len(),
        t.len() as int,
    )
}

/// The layers, in application order, each apply to the text produced by the
/// previous ones, and every intermediate text fits in a `usize` length.
pub open spec fn layers_apply(t: Seq<u8>, layers: Seq<Layer>) -> bool
    decreases layers.len(),
{
    &&& t.len() <= usize::MAX
    &&& (layers.len() == 0 || {
        &&& layer_applies_to(t, layers.first())
        &&& layers_apply(spec_apply_layer(t, layers.first()), layers.drop_first())
    })
}

/// The text after applying all layers in application order.
pub open spec fn apply_layers(t: Seq<u8>, layers: Seq<Layer>) -> Seq<u8>
    decreases layers.len(),
{
    if layers.len() == 0 {
        t
    } else {
        apply_layers(spec_apply_layer(t, layers.first()), layers.drop_first())
    }
}

/// The offset, given in the coordinates of the fully transformed text,
/// avoids the replacement range of every layer all the way down.
pub open spec fn outside_replacements(layers: Seq<Layer>, pos: int) -> bool
    decreases layers.len(),
{
    if layers.len() == 0 {
        true
    } else {
        let l = layers.last();
        &&& !(layer_start(l) <= pos < l.end)
        &&& outside_replacements(layers.drop_last(), spec_translate_one(l, pos))
    }
}

/// The offset lies before the replaced range of every layer.
pub open spec fn before_all_layers(layers: Seq<Layer>, pos: int) -> bool {
    forall|i: int| 0 <= i < layers.len() ==> pos < layer_start(#[trigger] layers[i])
}

/// Everything a layer records: its end offset and the original and
/// replacement texts.
pub open spec fn layer_model(l: Layer) -> (int, Seq<u8>, Seq<u8>) {
    (l.end as int, l.original@, l.replacement@)
}

/// The recorded content of a whole layer sequence, in order.
pub open spec fn layer_models(ls: Seq<Layer>) -> Seq<(int, Seq<u8>, Seq<u8>)> {
    Seq::new(ls.len(), |k: int| layer_model(ls[k]))
}

/// Per-file sequence of layers, appended in the order the rewrites were
/// applied.  Within one rewrite pass the end offsets ascend; a later pass
/// scans the text from its start again, so one of its layers may end before
/// an earlier pass's layers.  Translation inverts the layers in reverse
/// application order and never relies on a global ordering by end offset.
pub struct FileSourceMap {
    pub layers: Vec<Layer>,
}

impl FileSourceMap {
    /// All recorded layers are well formed.
    pub open spec fn wf(&self) -> bool {
        forall|i: int| 0 <= i < self.layers@.len() ==> layer_wf(#[trigger] self.layers@[i])
    }

    pub fn new() -> (r: Self)
        ensures
            r.layers@ == Seq::<Layer>::empty(),
            r.wf(),
    {
        let r = FileSourceMap { layers: Vec::new() };
        proof {
            assert(r.layers@ =~= Seq::<Layer>::empty());
        }
        r
    }

    /// Records one substitution whose replacement ends at `end` in the text
    /// as it stands right after the substitution.
    pub fn push_layer(&mut self, end: usize, original: Vec<u8>, replacement: Vec<u8>)
        requires
            replacement@.len() <= end,
            old(self).wf(),
        ensures
            final(self).layers@ == old(self).layers@.push(
                Layer { end, original: original, replacement: replacement },
            ),
            final(self).wf(),
    {
        let l = Layer { end, original, replacement };
        self.layers.push(l);
    }

    /// Translates an offset of the fully transformed text back to the
    /// original text by inverting the layers in reverse application order.
    /// Whenever every intermediate offset is representable the result is
    /// exactly the mathematical translation; otherwise it saturates.
    pub fn translate_offset(&self, pos: usize) -> (r: usize)
        requires
            self.wf(),
        ensures
            translate_in_range(self.layers@, pos as int) ==> r as int == spec_translate(
                self.layers@,
                pos as int,
            ),
    {
        let ghost all = self.layers@;
        let mut p: usize = pos;
        let mut k: usize = self.layers.len();
        proof {
            assert(all.subrange(k as int, all.len() as int) =~= Seq::<Layer>::empty());
            assert(all.subrange(0, k as int) =~= all);
        }
        while k > 0
            invariant
                k <= self.layers@.len(),
                self.layers@ == all,
                self.wf(),
                translate_in_range(all, pos as int) ==> p as int == spec_translate(
                    all.subrange(k as int, all.len() as int),
                    pos as int,
                ),
                translate_in_range(all, pos as int) ==> translate_in_range(
                    all.subrange(0, k as int),
                    p as int,
                ),
            decreases k,
        {
            let ghost p0 = p as int;
            let ghost prefix = all.subrange(0, k as int);
            proof {
                assert(layer_wf(all[k - 1]));
                assert(prefix.last() == all[k - 1]);
                assert(prefix.drop_last() =~= all.subrange(0, k - 1));
                assert(all.subrange(k - 1, all.len() as int) =~= seq![all[k - 1]] + all.subrange(
                    k as int,
                    all.len() as int,
                ));
                lemma_translate_cons(all[k - 1], all.subrange(k as int, all.len() as int), pos as int);
            }
            let l = &self.layers[k - 1];
            if p >= l.end {
                let shifted = p - l.replacement.len();
                if shifted <= usize::MAX - l.original.len() {
                    p = shifted + l.original.len();
                } else {
                    // the mathematical translation leaves the usize range, and
                    // with it every promise about the result
                    p = usize::MAX;
                    proof {
                        assert(spec_translate_one(all[k - 1], p0) > usize::MAX);
                        if translate_in_range(all, pos as int) {
                            assert(translate_in_range(prefix, p0));
                            assert(false);
                        }
                    }
                }
            } else {
                let start = l.end - l.replacement.len();
                if p >= start {
                    p = start;
                }
            }
            proof {
                assert(p as int == spec_translate_one(all[k - 1], p0) || !translate_in_range(
                    all,
                    pos as int,
                ));
            }
            k = k - 1;
        }
        proof {
            if translate_in_range(all, pos as int) {
                assert(all.subrange(0, all.len() as int) =~= all);
            }
        }
        p
    }
}

/// Appending a layer to the application order applies it to the text
/// produced by the earlier layers.
pub proof fn lemma_apply_push(t: Seq<u8>, s: Seq<Layer>, l: Layer)
    ensures
        apply_layers(t, s.push(l)) == spec_apply_layer(apply_layers(t, s), l),
        layers_apply(t, s.push(l)) <==> (layers_apply(t, s) && layer_applies_to(
            apply_layers(t, s),
            l,
        ) && spec_apply_layer(apply_layers(t, s), l).len() <= usize::MAX),
    decreases s.len(),
{
    let sp = s.push(l);
    assert(sp.len() == s.len() + 1);
    if s.len() == 0 {
        assert(sp.first() == l);
        assert(sp.drop_first() =~= Seq::<Layer>::empty());
        assert(apply_layers(t, s) == t);
        assert(apply_layers(spec_apply_layer(t, l), Seq::<Layer>::empty()) == spec_apply_layer(
            t,
            l,
        ));
        assert(layers_apply(spec_apply_layer(t, l), Seq::<Layer>::empty()) <==> spec_apply_layer(
            t,
            l,
        ).len() <= usize::MAX);
    } else {
        assert(sp.first() == s.first());
        assert(sp.drop_first() =~= s.drop_first().push(l));
        lemma_apply_push(spec_apply_layer(t, s.first()), s.drop_first(), l);
    }
}

/// Layers recorded by consecutive rewrite passes compose: the second pass's
/// layers apply to the text the first pass produced.
pub proof fn lemma_apply_concat(t: Seq<u8>, l1: Seq<Layer>, l2: Seq<Layer>)
    requires
        layers_apply(t, l1),
        layers_apply(apply_layers(t, l1), l2),
    ensures
        layers_apply(t, l1 + l2),
        apply_layers(t, l1 + l2) == apply_layers(apply_layers(t, l1), l2),
    decreases l1.len(),
{
    if l1.len() == 0 {
        assert(l1 + l2 =~= l2);
        assert(apply_layers(t, l1) == t);
    } else {
        assert((l1 + l2).first() == l1.first());
        assert((l1 + l2).drop_first() =~= l1.drop_first() + l2);
        lemma_apply_concat(spec_apply_layer(t, l1.first()), l1.drop_first(), l2);
    }
}

/// The text produced by a chain of applicable layers has a representable
/// length.
pub proof fn lemma_apply_len_bounded(t: Seq<u8>, s: Seq<Layer>)
    requires
        layers_apply(t, s),
    ensures
        apply_layers(t, s).len() <= usize::MAX,
    decreases s.len(),
{
    if s.len() == 0 {
    } else {
        lemma_apply_len_bounded(spec_apply_layer(t, s.first()), s.drop_first());
    }
}

/// Inverting one layer maps a position outside its replacement range to the
/// position of the very byte that produced it.
proof fn lemma_translate_one_char(t: Seq<u8>, l: Layer, pos: int)
    requires
        layer_applies_to(t, l),
        0 <= pos < spec_apply_layer(t, l).len(),
        !(layer_start(l) <= pos < l.end),
    ensures
        0 <= spec_translate_one(l, pos) < t.len(),
        t[spec_translate_one(l, pos)] == spec_apply_layer(t, l)[pos],
{
    let start = layer_start(l);
    let olen = l.original@.len() as int;
    let rlen = l.replacement@.len() as int;
    let t2 = spec_apply_layer(t, l);
    assert(t2.len() == t.len() - olen + rlen);
    if pos < start {
        assert(t2[pos] == t.subrange(0, start)[pos]);
        assert(t.subrange(0, start)[pos] == t[pos]);
    } else {
        let p = pos - rlen + olen;
        assert(t2[pos] == t.subrange(start + olen, t.len() as int)[pos - start - rlen]);
        assert(t.subrange(start + olen, t.len() as int)[pos - start - rlen] == t[p]);
    }
}

/// Inverting one layer keeps any position of the transformed text inside the
/// bounds of the text it was applied to.
proof fn lemma_translate_one_range(t: Seq<u8>, l: Layer, pos: int)
    requires
        layer_applies_to(t, l),
        0 <= pos <= spec_apply_layer(t, l).len(),
    ensures
        0 <= spec_translate_one(l, pos) <= t.len(),
{
    assert(spec_apply_layer(t, l).len() == t.len() - l.original@.len() + l.replacement@.len());
}

/// Translating any offset of the transformed text stays representable and
/// lands inside the original text.
pub proof fn lemma_translate_range(t: Seq<u8>, layers: Seq<Layer>, pos: int)
    requires
        layers_apply(t, layers),
        0 <= pos <= apply_layers(t, layers).len(),
    ensures
        translate_in_range(layers, pos),
        0 <= spec_translate(layers, pos) <= t.len(),
    decreases layers.len(),
{
    if layers.len() == 0 {
    } else {
        let s = layers.drop_last();
        let l = layers.last();
        assert(layers =~= s.push(l));
        lemma_apply_push(t, s, l);
        let tmid = apply_layers(t, s);
        lemma_translate_one_range(tmid, l, pos);
        lemma_apply_len_bounded(t, s);
        lemma_translate_range(t, s, spec_translate_one(l, pos));
    }
}

/// Round trip of the rewriting engine: for any sequence of substitutions
/// applied in order to a text, translating an offset of the resulting text
/// that lies outside every replaced range returns exactly the original
/// offset of the byte that produced it.
pub proof fn lemma_round_trip(t: Seq<u8>, layers: Seq<Layer>, pos: int)
    requires
        layers_apply(t, layers),
        0 <= pos < apply_layers(t, layers).len(),
        outside_replacements(layers, pos),
    ensures
        translate_in_range(layers, pos),
        0 <= spec_translate(layers, pos) < t.len(),
        t[spec_translate(layers, pos)] == apply_layers(t, layers)[pos],
    decreases layers.len(),
{
    if layers.len() == 0 {
    } else {
        let s = layers.drop_last();
        let l = layers.last();
        assert(layers =~= s.push(l));
        lemma_apply_push(t, s, l);
        let tmid = apply_layers(t, s);
        lemma_translate_one_char(tmid, l, pos);
        lemma_apply_len_bounded(t, s);
        lemma_round_trip(t, s, spec_translate_one(l, pos));
    }
}

/// An offset before every replaced range is identity-mapped.
pub proof fn lemma_translate_identity(layers: Seq<Layer>, pos: int)
    requires
        before_all_layers(layers, pos),
        0 <= pos <= usize::MAX,
    ensures
        spec_translate(layers, pos) == pos,
        translate_in_range(layers, pos),
    decreases layers.len(),
{
    if layers.len() == 0 {
    } else {
        let l = layers.last();
        assert(pos < layer_start(l));
        assert(spec_translate_one(l, pos) == pos);
        assert(before_all_layers(layers.drop_last(), pos)) by {
            assert(forall|i: int|
                0 <= i < layers.drop_last().len() ==> #[trigger] layers.drop_last()[i]
                    == layers[i]);
        }
        lemma_translate_identity(layers.drop_last(), pos);
    }
}

/// Every layer's original and replacement texts are free of line feeds.
pub open spec fn layers_newline_free(layers: Seq<Layer>) -> bool {
    forall|i: int|
        0 <= i < layers.len() ==> newline_free((#[trigger] layers[i]).original@) && newline_free(
            layers[i].replacement@,
        )
}

/// Inverting one newline-free layer maps an offset outside its replacement
/// range to an offset preceded by the same number of line feeds.
proof fn lemma_translate_one_line(t: Seq<u8>, l: Layer, pos: int)
    requires
        layer_applies_to(t, l),
        0 <= pos <= spec_apply_layer(t, l).len(),
        !(layer_start(l) <= pos < l.end),
        newline_free(l.original@),
        newline_free(l.replacement@),
    ensures
        count_newlines(t, spec_translate_one(l, pos)) == count_newlines(
            spec_apply_layer(t, l),
            pos,
        ),
{
    let start = layer_start(l);
    let olen = l.original@.len() as int;
    let rlen = l.replacement@.len() as int;
    let t2 = spec_apply_layer(t, l);
    let a = t.subrange(0, start);
    let b = l.replacement@;
    let c = t.subrange(start + olen, t.len() as int);
    if pos < start {
        assert(forall|j: int| 0 <= j < pos ==> t2[j] == t[j]);
        lemma_count_newlines_congruent(t2, t, pos);
    } else {
        let tr = pos - rlen + olen;
        let tail = pos - l.end;
        // the transformed side: the prefix before the replacement, the
        // newline-free replacement, and the shared tail
        lemma_count_newlines_split(t2, l.end as int, pos);
        lemma_count_newlines_concat(a + b, c, 0);
        lemma_count_newlines_concat(a, b, rlen);
        lemma_count_newlines_zero(b, rlen);
        assert(forall|j: int| 0 <= j < start ==> a[j] == t[j]);
        lemma_count_newlines_congruent(a, t, start);
        assert(t2.skip(l.end as int) =~= t.skip(start + olen));
        assert(count_newlines(t2, pos) == count_newlines(t, start) + count_newlines(
            t.skip(start + olen),
            tail,
        ));
        // the original side: the same prefix, the newline-free original
        // span, and the same tail
        lemma_count_newlines_split(t, start, tr);
        lemma_count_newlines_split(t.skip(start), olen, olen + tail);
        assert(forall|j: int|
            0 <= j < olen ==> t.skip(start)[j] == t.subrange(start, start + olen)[j]);
        lemma_count_newlines_congruent(t.skip(start), l.original@, olen);
        lemma_count_newlines_zero(l.original@, olen);
        assert(t.skip(start).skip(olen) =~= t.skip(start + olen));
        assert(count_newlines(t, tr) == count_newlines(t, start) + count_newlines(
            t.skip(start + olen),
            tail,
        ));
    }
}

/// For newline-free substitutions, translating an offset outside every
/// replaced range preserves the number of line feeds before it: the
/// translated position lies on the same line.
pub proof fn lemma_line_preserved(t: Seq<u8>, layers: Seq<Layer>, pos: int)
    requires
        layers_apply(t, layers),
        0 <= pos <= apply_layers(t, layers).len(),
        outside_replacements(layers, pos),
        layers_newline_free(layers),
    ensures
        count_newlines(t, spec_translate(layers, pos)) == count_newlines(
            apply_layers(t, layers),
            pos,
        ),
    decreases layers.len(),
{
    if layers.len() == 0 {
    } else {
        let s = layers.drop_last();
        let l = layers.last();
        assert(layers =~= s.push(l));
        lemma_apply_push(t, s, l);
        let tmid = apply_layers(t, s);
        assert(newline_free(l.original@) && newline_free(l.replacement@)) by {
            assert(layers[layers.len() - 1] == l);
        }
        lemma_translate_one_line(tmid, l, pos);
        lemma_translate_one_range(tmid, l, pos);
        assert(layers_newline_free(s)) by {
            assert(forall|i: int| 0 <= i < s.len() ==> s[i] == #[trigger] layers[i]);
        }
        lemma_apply_len_bounded(t, s);
        lemma_line_preserved(t, s, spec_translate_one(l, pos));
    }
}

/// Translating through a sequence applies its first layer's inversion last.
proof fn lemma_translate_cons(a: Layer, rest: Seq<Layer>, pos: int)
    ensures
        spec_translate(seq![a] + rest, pos) == spec_translate_one(a, spec_translate(rest, pos)),
        translate_in_range(seq![a] + rest, pos) <==> (translate_in_range(rest, pos)
            && spec_translate_one(a, spec_translate(rest, pos)) <= usize::MAX),
    decreases rest.len(),
{
    let s = seq![a] + rest;
    assert(s.len() == 1 + rest.len());
    if rest.len() == 0 {
        assert(s.last() == a);
        assert(s.drop_last() =~= Seq::<Layer>::empty());
        assert(spec_translate(Seq::<Layer>::empty(), spec_translate_one(a, pos))
            == spec_translate_one(a, pos));
        assert(translate_in_range(Seq::<Layer>::empty(), spec_translate_one(a, pos)));
        assert(spec_translate(s, pos) == spec_translate_one(a, pos));
        assert(spec_translate(rest, pos) == pos);
        assert(translate_in_range(s, pos) <==> spec_translate_one(a, pos) <= usize::MAX);
    } else {
        let q0 = spec_translate_one(rest.last(), pos);
        assert(s.last() == rest.last());
        assert(s.drop_last() =~= seq![a] + rest.drop_last());
        lemma_translate_cons(a, rest.drop_last(), q0);
        assert(spec_translate(s, pos) == spec_translate(seq![a] + rest.drop_last(), q0));
        assert(spec_translate(rest, pos) == spec_translate(rest.drop_last(), q0));
        assert(translate_in_range(s, pos) <==> (q0 <= usize::MAX && translate_in_range(
            seq![a] + rest.drop_last(),
            q0,
        )));
        assert(translate_in_range(rest, pos) <==> (q0 <= usize::MAX && translate_in_range(
            rest.drop_last(),
            q0,
        )));
    }
}

} // verus!
