//! Batching: groups a sequence of requests into mini-batches under a
//! sentence-count and a cumulative word-count limit, and the correspondence
//! between a batch plan and the backend's per-batch outputs.
//!
//! The slot of request `i` is the pair (batch, offset) it was dispatched
//! under. Outputs positionally aligned with their batches land in exactly
//! the slot of the request they answer, so concatenating the per-batch
//! outputs restores the callers' order: no result can reach another
//! request's place.

use vstd::prelude::*;
use vstd::string::StrSliceExecFns;

verus! {

/// The mathematical value of a sequence of texts.
pub open spec fn texts_view(s: Seq<String>) -> Seq<Seq<char>> {
    s.map_values(|t: String| t@)
}

/// The mathematical value of a sequence of batches of texts.
pub open spec fn batches_view(s: Seq<Vec<String>>) -> Seq<Seq<Seq<char>>> {
    s.map_values(|b: Vec<String>| texts_view(b@))
}

/// Position `i` starts a word: a non-space character at the start of the
/// text or right after a space.
pub open spec fn is_word_start(s: Seq<char>, i: int) -> bool {
    0 <= i < s.len() && s[i] != ' ' && (i == 0 || s[i - 1] == ' ')
}

/// How many words start before position `n`.
pub open spec fn word_starts_below(s: Seq<char>, n: int) -> nat
    decreases n,
{
    if n <= 0 {
        0
    } else {
        word_starts_below(s, n - 1) + (if is_word_start(s, n - 1) {
            1nat
        } else {
            0nat
        })
    }
}

/// The number of space-separated words in a text.
pub open spec fn word_count(s: Seq<char>) -> nat {
    word_starts_below(s, s.len() as int)
}

proof fn lemma_word_starts_below_bound(s: Seq<char>, n: int)
    ensures
        word_starts_below(s, n) <= (if n <= 0 {
            0int
        } else {
            n
        }),
    decreases n,
{
    if n > 0 {
        lemma_word_starts_below_bound(s, n - 1);
    }
}

/// Counts the space-separated words of a text.
pub fn count_words(s: &str) -> (r: usize)
    ensures
        r == word_count(s@),
{
    let n = s.unicode_len();
    proof {
        lemma_word_starts_below_bound(s@, s@.len() as int);
    }
    let mut k: usize = 0;
    let mut c: usize = 0;
    while k < n
        invariant
            n == s@.len(),
            k <= n,
            c == word_starts_below(s@, k as int),
            c <= k,
        decreases n - k,
    {
        let ch = s.get_char(k);
        if ch != ' ' && (k == 0 || s.get_char(k - 1) == ' ') {
            c = c + 1;
        }
        k = k + 1;
    }
    c
}

/// The cumulative word count of a batch.
pub open spec fn weight_of(b: Seq<Seq<char>>) -> nat
    decreases b.len(),
{
    if b.len() == 0 {
        0
    } else {
        weight_of(b.drop_last()) + word_count(b.last())
    }
}

proof fn lemma_weight_push(b: Seq<Seq<char>>, t: Seq<char>)
    ensures
        weight_of(b.push(t)) == weight_of(b) + word_count(t),
{
    assert(b.push(t).drop_last() =~= b);
}

/// A batch the scheduler may dispatch: non-empty, within the sentence
/// limit, and within the word limit unless it consists of a single
/// over-long request (which must still be served).
pub open spec fn batch_admissible(b: Seq<Seq<char>>, max_sentences: usize, max_words: usize) -> bool {
    1 <= b.len() <= max_sentences && (b.len() == 1 || weight_of(b) <= max_words)
}

/// Groups the requests into dispatch batches, in arrival order: each batch
/// is admissible for the given limits, and concatenating the batches gives
/// back exactly the input sequence.
pub fn plan_batches(inputs: &Vec<String>, max_sentences: usize, max_words: usize) -> (r: Vec<
    Vec<String>,
>)
    requires
        max_sentences >= 1,
    ensures
        batches_view(r@).flatten() == texts_view(inputs@),
        forall|k: int|
            0 <= k < r@.len() ==> batch_admissible(
                #[trigger] batches_view(r@)[k],
                max_sentences,
                max_words,
            ),
        r@.len() == 0 <==> inputs@.len() == 0,
{
    let ghost all = texts_view(inputs@);
    let mut out: Vec<Vec<String>> = Vec::new();
    let mut cur: Vec<String> = Vec::new();
    let mut cur_words: usize = 0;
    let mut i: usize = 0;
    while i < inputs.len()
        invariant
            max_sentences >= 1,
            i <= inputs@.len(),
            all == texts_view(inputs@),
            all.len() == inputs@.len(),
            batches_view(out@).flatten() + texts_view(cur@) =~= all.subrange(0, i as int),
            cur@.len() <= max_sentences,
            cur_words == weight_of(texts_view(cur@)),
            cur@.len() > 1 ==> cur_words <= max_words,
            cur@.len() == 0 ==> out@.len() == 0 && i == 0,
            forall|k: int|
                0 <= k < out@.len() ==> batch_admissible(
                    #[trigger] batches_view(out@)[k],
                    max_sentences,
                    max_words,
                ),
        decreases inputs@.len() - i,
    {
        let w = count_words(inputs[i].as_str());
        proof {
            assert(all[i as int] == inputs@[i as int]@);
        }
        if cur.len() > 0 && (cur.len() == max_sentences || (max_words < cur_words || w > max_words
            - cur_words)) {
            let ghost preb = batches_view(out@);
            let ghost curv = texts_view(cur@);
            out.push(cur);
            proof {
                assert(batches_view(out@) =~= preb.push(curv));
                preb.lemma_flatten_push(curv);
            }
            cur = Vec::new();
            cur_words = 0;
            proof {
                assert(texts_view(cur@) =~= Seq::<Seq<char>>::empty());
                assert(weight_of(texts_view(cur@)) == 0);
                assert(batches_view(out@).flatten() + texts_view(cur@) =~= all.subrange(
                    0,
                    i as int,
                ));
            }
        }
        let ghost curv = texts_view(cur@);
        cur.push(inputs[i].clone());
        cur_words = cur_words + w;
        proof {
            assert(texts_view(cur@) =~= curv.push(all[i as int]));
            lemma_weight_push(curv, all[i as int]);
            assert(batches_view(out@).flatten() + texts_view(cur@) =~= (batches_view(out@).flatten()
                + curv).push(all[i as int]));
            assert((batches_view(out@).flatten() + curv).push(all[i as int]) =~= all.subrange(
                0,
                i as int,
            ).push(all[i as int]));
            assert(all.subrange(0, i as int).push(all[i as int]) =~= all.subrange(0, i as int + 1));
        }
        i = i + 1;
    }
    if cur.len() > 0 {
        let ghost preb = batches_view(out@);
        let ghost curv = texts_view(cur@);
        out.push(cur);
        proof {
            assert(batches_view(out@) =~= preb.push(curv));
            preb.lemma_flatten_push(curv);
        }
    }
    proof {
        assert(all.subrange(0, all.len() as int) =~= all);
        assert(batches_view(out@).flatten() =~= all);
        if out@.len() == 0 {
            assert(batches_view(out@) =~= Seq::<Seq<Seq<char>>>::empty());
            assert(all.len() == 0);
        }
    }
    out
}

/// The number of requests dispatched in the first `k` batches: the global
/// index where batch `k` begins.
pub open spec fn prefix_len(bs: Seq<Seq<Seq<char>>>, k: int) -> int
    decreases k,
{
    if k <= 0 {
        0
    } else {
        prefix_len(bs, k - 1) + bs[k - 1].len()
    }
}

proof fn lemma_prefix_len_drop_first(bs: Seq<Seq<Seq<char>>>, k: int)
    requires
        1 <= k <= bs.len(),
    ensures
        prefix_len(bs, k) == bs[0].len() + prefix_len(bs.drop_first(), k - 1),
    decreases k,
{
    if k > 1 {
        lemma_prefix_len_drop_first(bs, k - 1);
        assert(bs.drop_first()[k - 2] == bs[k - 1]);
    } else {
        assert(prefix_len(bs, 0) == 0);
        assert(prefix_len(bs.drop_first(), 0) == 0);
    }
}

/// `prefix_len` grows with `k` and stays within the flattened length.
pub proof fn lemma_prefix_len_monotone(bs: Seq<Seq<Seq<char>>>, k1: int, k2: int)
    requires
        0 <= k1 <= k2 <= bs.len(),
    ensures
        prefix_len(bs, k1) <= prefix_len(bs, k2),
    decreases k2 - k1,
{
    if k1 < k2 {
        lemma_prefix_len_monotone(bs, k1, k2 - 1);
    }
}

/// The flattened sequence has exactly as many elements as all batches
/// together.
pub proof fn lemma_flatten_len(bs: Seq<Seq<Seq<char>>>)
    ensures
        bs.flatten().len() == prefix_len(bs, bs.len() as int),
    decreases bs.len(),
{
    if bs.len() > 0 {
        lemma_flatten_len(bs.drop_first());
        lemma_prefix_len_drop_first(bs, bs.len() as int);
    }
}

/// Within the flattened sequence, the element of batch `k` at offset `j`
/// stands at the global index `prefix_len(bs, k) + j`.
pub proof fn lemma_flatten_index(bs: Seq<Seq<Seq<char>>>, k: int, j: int)
    requires
        0 <= k < bs.len(),
        0 <= j < bs[k].len(),
    ensures
        0 <= prefix_len(bs, k) + j < bs.flatten().len(),
        bs.flatten()[prefix_len(bs, k) + j] == bs[k][j],
    decreases k,
{
    lemma_flatten_len(bs);
    lemma_prefix_len_monotone(bs, 0, k);
    lemma_prefix_len_monotone(bs, k + 1, bs.len() as int);
    if k == 0 {
        assert(bs.flatten() == bs.first() + bs.drop_first().flatten());
        assert(bs.flatten()[j] == bs[0][j]);
    } else {
        lemma_flatten_index(bs.drop_first(), k - 1, j);
        lemma_prefix_len_drop_first(bs, k);
        assert(bs.flatten() == bs.first() + bs.drop_first().flatten());
        assert(bs.drop_first()[k - 1] == bs[k]);
        assert(bs.flatten()[bs[0].len() + (prefix_len(bs.drop_first(), k - 1) + j)] == bs.drop_first().flatten()[prefix_len(
            bs.drop_first(),
            k - 1,
        ) + j]);
    }
}

/// Distinct slots have distinct global indices: the result for one request
/// can never land on another.
pub proof fn lemma_slot_injective(bs: Seq<Seq<Seq<char>>>, k1: int, j1: int, k2: int, j2: int)
    requires
        0 <= k1 < bs.len(),
        0 <= j1 < bs[k1].len(),
        0 <= k2 < bs.len(),
        0 <= j2 < bs[k2].len(),
        !(k1 == k2 && j1 == j2),
    ensures
        slot_index(bs, k1, j1) != slot_index(bs, k2, j2),
{
    if k1 == k2 {
    } else if k1 < k2 {
        lemma_prefix_len_monotone(bs, k1 + 1, k2);
        assert(prefix_len(bs, k1 + 1) == prefix_len(bs, k1) + bs[k1].len());
    } else {
        lemma_prefix_len_monotone(bs, k2 + 1, k1);
        assert(prefix_len(bs, k2 + 1) == prefix_len(bs, k2) + bs[k2].len());
    }
}

/// Every global index is some request's slot: together with
/// `lemma_slot_injective`, the slots partition the concatenated order, so
/// each position of the output belongs to exactly one request.
pub proof fn lemma_slot_cover(bs: Seq<Seq<Seq<char>>>, i: int)
    requires
        0 <= i < bs.flatten().len(),
    ensures
        exists|k: int, j: int|
            0 <= k < bs.len() && 0 <= j < bs[k].len() && i == #[trigger] slot_index(bs, k, j),
    decreases bs.len(),
{
    assert(bs.len() > 0);
    assert(bs.flatten() == bs.first() + bs.drop_first().flatten());
    if i < bs[0].len() {
        assert(prefix_len(bs, 0) == 0);
        assert(i == slot_index(bs, 0, i));
    } else {
        let rest = bs.drop_first();
        let i2 = i - bs[0].len();
        lemma_slot_cover(rest, i2);
        let (k2, j2) = choose|k2: int, j2: int|
            0 <= k2 < rest.len() && 0 <= j2 < rest[k2].len() && i2 == #[trigger] slot_index(
                rest,
                k2,
                j2,
            );
        lemma_prefix_len_drop_first(bs, k2 + 1);
        assert(rest[k2] == bs[k2 + 1]);
        assert(i == slot_index(bs, k2 + 1, j2));
    }
}

/// Responses are positionally aligned with a batch plan: one response batch
/// per dispatched batch, of the same size.
pub open spec fn aligned(rs: Seq<Seq<Seq<char>>>, bs: Seq<Seq<Seq<char>>>) -> bool {
    rs.len() == bs.len() && forall|k: int|
        0 <= k < bs.len() ==> (#[trigger] rs[k]).len() == bs[k].len()
}

proof fn lemma_aligned_prefix_len(rs: Seq<Seq<Seq<char>>>, bs: Seq<Seq<Seq<char>>>, k: int)
    requires
        aligned(rs, bs),
        0 <= k <= bs.len(),
    ensures
        prefix_len(rs, k) == prefix_len(bs, k),
    decreases k,
{
    if k > 0 {
        lemma_aligned_prefix_len(rs, bs, k - 1);
    }
}

/// The global index of the request at offset `j` of batch `k`: its slot in
/// the concatenated order.
pub open spec fn slot_index(bs: Seq<Seq<Seq<char>>>, k: int, j: int) -> int {
    prefix_len(bs, k) + j
}

/// The law the whole pipeline rests on: when the backend answers each batch
/// with as many outputs as it was handed, the concatenated outputs have the
/// length of the concatenated inputs, and the output at a request's global
/// index is the backend's answer for that request's slot. Together with
/// `lemma_slot_injective`, no request can receive another request's answer.
pub proof fn lemma_correspondence(rs: Seq<Seq<Seq<char>>>, bs: Seq<Seq<Seq<char>>>)
    requires
        aligned(rs, bs),
    ensures
        rs.flatten().len() == bs.flatten().len(),
        forall|k: int, j: int|
            0 <= k < bs.len() && 0 <= j < bs[k].len() ==> {
                &&& 0 <= #[trigger] slot_index(bs, k, j) < bs.flatten().len()
                &&& bs.flatten()[slot_index(bs, k, j)] == bs[k][j]
                &&& rs.flatten()[slot_index(bs, k, j)] == rs[k][j]
            },
{
    lemma_flatten_len(rs);
    lemma_flatten_len(bs);
    lemma_aligned_prefix_len(rs, bs, bs.len() as int);
    assert forall|k: int, j: int| 0 <= k < bs.len() && 0 <= j < bs[k].len() implies {
        &&& 0 <= #[trigger] slot_index(bs, k, j) < bs.flatten().len()
        &&& bs.flatten()[slot_index(bs, k, j)] == bs[k][j]
        &&& rs.flatten()[slot_index(bs, k, j)] == rs[k][j]
    } by {
        lemma_flatten_index(bs, k, j);
        lemma_flatten_index(rs, k, j);
        lemma_aligned_prefix_len(rs, bs, k);
    }
}

/// Concatenates the batches back into one sequence, preserving order.
pub fn flatten_batches(bs: &Vec<Vec<String>>) -> (r: Vec<String>)
    ensures
        texts_view(r@) == batches_view(bs@).flatten(),
{
    let ghost bv = batches_view(bs@);
    let mut r: Vec<String> = Vec::new();
    let mut k: usize = 0;
    proof {
        assert(bv.subrange(0, 0) =~= Seq::<Seq<Seq<char>>>::empty());
        assert(texts_view(r@) =~= bv.subrange(0, 0).flatten());
    }
    while k < bs.len()
        invariant
            k <= bs@.len(),
            bv == batches_view(bs@),
            bv.len() == bs@.len(),
            texts_view(r@) == bv.subrange(0, k as int).flatten(),
        decreases bs@.len() - k,
    {
        let ghost pre = texts_view(r@);
        let b = &bs[k];
        let mut j: usize = 0;
        while j < b.len()
            invariant
                j <= b@.len(),
                bv == batches_view(bs@),
                bv.len() == bs@.len(),
                k < bs@.len(),
                b == bs@[k as int],
                texts_view(r@) =~= pre + bv[k as int].subrange(0, j as int),
            decreases b@.len() - j,
        {
            let ghost rv = texts_view(r@);
            r.push(b[j].clone());
            proof {
                assert(texts_view(r@) =~= rv.push(bv[k as int][j as int]));
                assert(texts_view(r@) =~= pre + bv[k as int].subrange(0, j as int + 1));
            }
            j = j + 1;
        }
        proof {
            assert(bv[k as int].subrange(0, bv[k as int].len() as int) =~= bv[k as int]);
            assert(bv.subrange(0, k as int).push(bv[k as int]) =~= bv.subrange(0, k as int + 1));
            bv.subrange(0, k as int).lemma_flatten_push(bv[k as int]);
            assert(texts_view(r@) =~= bv.subrange(0, k as int + 1).flatten());
        }
        k = k + 1;
    }
    proof {
        assert(bv.subrange(0, bv.len() as int) =~= bv);
    }
    r
}

} // verus!
