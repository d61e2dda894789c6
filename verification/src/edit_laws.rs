//! Deleting what was just inserted gives the text back.
use crate::edit_buffer::{delete_offsets_spec, insert_spec, inserted_cursor, inserted_text, EditView};
use crate::position_laws::{lemma_exact_step, lemma_monotone, lemma_weight_nonneg, unsaturated};
use crate::text::{char_weight_spec, lemma_prefix_take, normalize_newlines, utf8_lossy, weight_prefix};
use crate::text_buffer::{first_at_weight_or_end, lemma_first_at_weight_or_end_unique, weight_index};
use vstd::prelude::*;

verus! {

/// The first index whose running weight is `target`, when some index has
/// it, is where `weight_index` points, and it has that weight.
proof fn lemma_weight_index_hits(text: Seq<char>, tab_width: u8, target: int, k: int)
    requires
        0 <= k <= text.len(),
        weight_prefix(text, tab_width, k) == target,
    ensures
        0 <= weight_index(text, tab_width, target) <= k,
        weight_prefix(text, tab_width, weight_index(text, tab_width, target)) == target,
        forall|j: int| 0 <= j < weight_index(text, tab_width, target) ==> weight_prefix(text, tab_width, j) != target,
    decreases k,
{
    if exists|j: int| 0 <= j < k && weight_prefix(text, tab_width, j) == target {
        let j = choose|j: int| 0 <= j < k && weight_prefix(text, tab_width, j) == target;
        lemma_weight_index_hits(text, tab_width, target, j);
    } else {
        assert(first_at_weight_or_end(text, tab_width, target, k));
        lemma_first_at_weight_or_end_unique(text, tab_width, target, k);
    }
}

/// Inside the inserted piece the running weight is the weight before it
/// plus the piece's own running weight.
proof fn lemma_weight_across(a: Seq<char>, ins: Seq<char>, b: Seq<char>, tab_width: u8, j: int)
    requires
        unsaturated(a + ins + b, tab_width),
        0 <= j <= ins.len(),
    ensures
        weight_prefix(a + ins + b, tab_width, a.len() + j) == weight_prefix(a, tab_width, a.len() as int) + weight_prefix(
            ins,
            tab_width,
            j,
        ),
    decreases j,
{
    let t = a + ins + b;
    if j == 0 {
        assert(t.take(a.len() as int) =~= a);
        lemma_prefix_take(t, tab_width, a.len() as int, a.len() as int);
    } else {
        lemma_weight_across(a, ins, b, tab_width, j - 1);
        lemma_exact_step(t, tab_width, a.len() + j - 1);
        assert(t[a.len() + j - 1] == ins[j - 1]);
        lemma_monotone(t, tab_width, a.len() + j, t.len() as int);
        lemma_weight_nonneg(ins[j - 1], tab_width);
        crate::text::lemma_prefix_bounds(ins, tab_width, j - 1);
        crate::text::lemma_prefix_bounds(a, tab_width, a.len() as int);
        let wa = weight_prefix(a, tab_width, a.len() as int);
        let wi = weight_prefix(ins, tab_width, j - 1);
        let cw = char_weight_spec(ins[j - 1], tab_width);
        assert(weight_prefix(t, tab_width, a.len() + j) == wa + wi + cw);
        assert(wi + cw < u32::MAX);
        assert(weight_prefix(ins, tab_width, j) == crate::text::sat(wi + cw));
    }
}

/// Inserting text at a cursor that starts a char and then deleting from
/// that cursor to the cursor after the insert gives back the text and the
/// cursor, as long as the inserted text (after decoding and line-ending
/// normalisation) ends with a char of positive weight and the running
/// weight never saturates.
pub proof fn lemma_delete_undoes_insert(m: EditView, data: Seq<u8>)
    requires
        exists|k: int| 0 <= k <= m.text.len() && weight_prefix(m.text, m.tab_width, k) == m.cursor,
        ({
            let ins = normalize_newlines(utf8_lossy(data));
            &&& data.len() > 0
            &&& ins.len() > 0
            &&& char_weight_spec(ins.last(), m.tab_width) > 0
            &&& unsaturated(inserted_text(m.text, m.tab_width, m.cursor, ins), m.tab_width)
        }),
    ensures
        ({
            let m1 = insert_spec(m, data);
            let m2 = delete_offsets_spec(m1, m.cursor, m1.cursor);
            m2.text == m.text && m2.cursor == m.cursor
        }),
{
    let ins = normalize_newlines(utf8_lossy(data));
    let tw = m.tab_width;
    let text = m.text;
    let c0 = m.cursor as int;
    let k = choose|k: int| 0 <= k <= text.len() && weight_prefix(text, tw, k) == c0;
    lemma_weight_index_hits(text, tw, c0, k);
    let k0 = weight_index(text, tw, c0);
    let a = text.take(k0);
    let b = text.skip(k0);
    let t = inserted_text(text, tw, m.cursor, ins);
    assert(t == a + ins + b);
    let len = ins.len() as int;
    // weights before the insertion point are the text's own
    assert(t.take(k0) =~= text.take(k0));
    assert forall|j: int| 0 <= j <= k0 implies weight_prefix(t, tw, j) == weight_prefix(text, tw, j) by {
        lemma_prefix_take(t, tw, k0, j);
        lemma_prefix_take(text, tw, k0, j);
    }
    assert(a.take(k0) =~= a);
    lemma_prefix_take(text, tw, k0, k0);
    assert(weight_prefix(a, tw, k0) == c0) by {
        assert(text.take(k0) == a);
    }
    // the piece's weight
    lemma_weight_across(a, ins, b, tw, len);
    let wins = weight_prefix(ins, tw, len);
    lemma_monotone(ins, tw, len - 1, len);
    lemma_exact_step(t, tw, k0 + len - 1);
    assert(t[k0 + len - 1] == ins[len - 1]);
    lemma_weight_across(a, ins, b, tw, len - 1);
    assert(wins > weight_prefix(ins, tw, len - 1));
    lemma_monotone(t, tw, k0 + len, t.len() as int);
    let c1 = c0 + wins;
    assert(inserted_cursor(tw, m.cursor, ins) == c1);
    let m1 = insert_spec(m, data);
    assert(m1.text == t && m1.cursor == c1);
    // where the deletion starts
    assert(first_at_weight_or_end(t, tw, c0, k0));
    lemma_first_at_weight_or_end_unique(t, tw, c0, k0);
    // where it ends
    assert forall|j: int| 0 <= j < k0 + len implies weight_prefix(t, tw, j) != c1 by {
        if j <= k0 {
            lemma_monotone(text, tw, j, k0);
        } else {
            lemma_weight_across(a, ins, b, tw, j - k0);
            lemma_monotone(ins, tw, j - k0, len - 1);
        }
    }
    assert(first_at_weight_or_end(t, tw, c1, k0 + len));
    lemma_first_at_weight_or_end_unique(t, tw, c1, k0 + len);
    assert(t.take(k0) + t.skip(k0 + len) =~= text);
}

} // verus!
