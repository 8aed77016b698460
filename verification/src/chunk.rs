//! Paragraph-level chunking with sentence-aware overlap.
//!
//! Sentences are gathered into chunks of at most `max_chars` characters.
//! When the next sentence would overflow a non-empty chunk, the chunk is
//! closed and the next one starts with the last `overlap_sentences`
//! sentences of the closed chunk. A sentence is never split, so a single
//! sentence longer than `max_chars` still forms a chunk of its own.

use vstd::prelude::*;
use vstd::string::StrSliceExecFns;
use crate::chars::views;

verus! {

/// Configuration for paragraph-level chunking.
#[derive(Debug, Clone)]
pub struct ChunkConfig {
    /// Maximum number of characters in a chunk (sum of its sentences'
    /// lengths); a sentence longer than this is kept alone, never split.
    pub max_chars: usize,
    /// Number of sentences carried from the end of a closed chunk to the
    /// head of the next one.
    pub overlap_sentences: usize,
}

/// Total number of characters in the sentences `ss`.
pub open spec fn char_total(ss: Seq<Seq<char>>) -> nat
    decreases ss.len(),
{
    if ss.len() == 0 {
        0
    } else {
        char_total(ss.drop_last()) + ss.last().len()
    }
}

/// The last `min(k, ss.len())` sentences of `ss`.
pub open spec fn last_n(ss: Seq<Seq<char>>, k: nat) -> Seq<Seq<char>> {
    if k >= ss.len() {
        ss
    } else {
        ss.subrange(ss.len() - k, ss.len() as int)
    }
}

/// Chunking state after reading the sentences `ss`: the closed chunks and
/// the running chunk. A sentence that would push a non-empty running
/// chunk past `max` closes it; the new running chunk starts with the last
/// `overlap` sentences of the closed one.
pub open spec fn chunk_scan(ss: Seq<Seq<char>>, max: nat, overlap: nat) -> (
    Seq<Seq<Seq<char>>>,
    Seq<Seq<char>>,
)
    decreases ss.len(),
{
    if ss.len() == 0 {
        (seq![], seq![])
    } else {
        let prev = chunk_scan(ss.drop_last(), max, overlap);
        let s = ss.last();
        if char_total(prev.1) + s.len() > max && prev.1.len() > 0 {
            (prev.0.push(prev.1), last_n(prev.1, overlap).push(s))
        } else {
            (prev.0, prev.1.push(s))
        }
    }
}

/// The chunks of `ss`: the closed chunks, then the running one if it is
/// not empty.
pub open spec fn chunks_of(ss: Seq<Seq<char>>, max: nat, overlap: nat) -> Seq<Seq<Seq<char>>> {
    let st = chunk_scan(ss, max, overlap);
    if st.1.len() > 0 {
        st.0.push(st.1)
    } else {
        st.0
    }
}

/// The character views of a sequence of chunks.
pub open spec fn chunk_views(v: Seq<Vec<String>>) -> Seq<Seq<Seq<char>>> {
    v.map_values(|c: Vec<String>| views(c@))
}

proof fn lemma_char_total_append(a: Seq<Seq<char>>, b: Seq<Seq<char>>)
    ensures
        char_total(a + b) == char_total(a) + char_total(b),
    decreases b.len(),
{
    if b.len() == 0 {
        assert(a + b =~= a);
    } else {
        lemma_char_total_append(a, b.drop_last());
        assert((a + b).drop_last() =~= a + b.drop_last());
    }
}

proof fn lemma_char_total_subrange(ss: Seq<Seq<char>>, lo: int, hi: int)
    requires
        0 <= lo <= hi <= ss.len(),
    ensures
        char_total(ss.subrange(lo, hi)) <= char_total(ss),
{
    lemma_char_total_append(ss.subrange(0, lo), ss.subrange(lo, hi));
    lemma_char_total_append(ss.subrange(0, hi), ss.subrange(hi, ss.len() as int));
    assert(ss.subrange(0, lo) + ss.subrange(lo, hi) =~= ss.subrange(0, hi));
    assert(ss.subrange(0, hi) + ss.subrange(hi, ss.len() as int) =~= ss);
}

/// Copies of `v[lo..]`.
fn clone_tail(v: &Vec<String>, lo: usize) -> (r: Vec<String>)
    requires
        lo <= v@.len(),
    ensures
        views(r@) == views(v@).subrange(lo as int, v@.len() as int),
{
    let mut r: Vec<String> = Vec::new();
    let mut i = lo;
    while i < v.len()
        invariant
            lo <= i <= v@.len(),
            views(r@) == views(v@).subrange(lo as int, i as int),
        decreases v@.len() - i,
    {
        let s = v[i].clone();
        assert(views(v@)[i as int] == v@[i as int]@);
        let ghost before = views(r@);
        r.push(s);
        assert(views(r@) =~= before.push(s@));
        assert(views(r@) =~= views(v@).subrange(lo as int, i + 1));
        i = i + 1;
    }
    r
}

/// Partition `sentences` into chunks per `cfg`. Empty input gives no
/// chunks.
pub fn chunk_paragraphs(sentences: Vec<String>, cfg: &ChunkConfig) -> (r: Vec<Vec<String>>)
    requires
        char_total(views(sentences@)) <= usize::MAX,
    ensures
        chunk_views(r@) == chunks_of(
            views(sentences@),
            cfg.max_chars as nat,
            cfg.overlap_sentences as nat,
        ),
{
    let ghost ss = views(sentences@);
    let ghost max = cfg.max_chars as nat;
    let ghost ov = cfg.overlap_sentences as nat;
    if sentences.len() == 0 {
        assert(chunk_views(Seq::<Vec<String>>::empty()) =~= Seq::<Seq<Seq<char>>>::empty());
        return Vec::new();
    }
    let mut chunks: Vec<Vec<String>> = Vec::new();
    let mut running: Vec<String> = Vec::new();
    let mut running_chars: usize = 0;
    let ghost mut start: int = 0;
    let mut i: usize = 0;
    while i < sentences.len()
        invariant
            ss == views(sentences@),
            char_total(ss) <= usize::MAX,
            max == cfg.max_chars as nat,
            ov == cfg.overlap_sentences as nat,
            i <= sentences@.len(),
            0 <= start <= i,
            views(running@) == ss.subrange(start, i as int),
            running_chars == char_total(views(running@)),
            chunk_scan(ss.take(i as int), max, ov) == (chunk_views(chunks@), views(running@)),
        decreases sentences@.len() - i,
    {
        assert(ss.take(i + 1).drop_last() =~= ss.take(i as int));
        assert(ss.take(i + 1).last() == ss[i as int]);
        let s = sentences[i].clone();
        let s_len = s.as_str().unicode_len();
        assert(s@ == ss[i as int]);
        assert(seq![ss[i as int]].drop_last() =~= Seq::<Seq<char>>::empty());
        assert(char_total(Seq::<Seq<char>>::empty()) == 0);
        assert(char_total(seq![ss[i as int]]) == ss[i as int].len());
        proof {
            lemma_char_total_subrange(ss, start, i + 1);
            lemma_char_total_append(ss.subrange(start, i as int), seq![ss[i as int]]);
            assert(ss.subrange(start, i as int) + seq![ss[i as int]] =~= ss.subrange(start, i + 1));
        }
        let ghost prev_running = views(running@);
        let ghost prev_chunks = chunk_views(chunks@);
        if running_chars + s_len > cfg.max_chars && running.len() > 0 {
            let n = running.len();
            let overlap_n = if cfg.overlap_sentences < n {
                cfg.overlap_sentences
            } else {
                n
            };
            let tail = clone_tail(&running, n - overlap_n);
            let mut tail_chars: usize = 0;
            let mut k: usize = 0;
            proof {
                lemma_char_total_subrange(ss, start + (n - overlap_n), i as int);
                assert(views(tail@) =~= ss.subrange(start + (n - overlap_n), i as int));
            }
            while k < tail.len()
                invariant
                    k <= tail@.len(),
                    tail_chars == char_total(views(tail@).take(k as int)),
                    char_total(views(tail@)) <= usize::MAX,
                decreases tail@.len() - k,
            {
                assert(views(tail@).take(k + 1).drop_last() =~= views(tail@).take(k as int));
                proof {
                    lemma_char_total_subrange(views(tail@), 0, k + 1);
                    assert(views(tail@).subrange(0, k + 1) =~= views(tail@).take(k + 1));
                }
                tail_chars = tail_chars + tail[k].as_str().unicode_len();
                k = k + 1;
            }
            assert(views(tail@).take(tail@.len() as int) =~= views(tail@));
            chunks.push(running);
            assert(chunk_views(chunks@) =~= prev_chunks.push(prev_running));
            assert(views(tail@) =~= last_n(prev_running, ov));
            running = tail;
            running_chars = tail_chars;
            proof {
                start = start + (n - overlap_n);
            }
        }
        proof {
            lemma_char_total_subrange(ss, start, i + 1);
            lemma_char_total_append(ss.subrange(start, i as int), seq![ss[i as int]]);
            assert(ss.subrange(start, i as int) + seq![ss[i as int]] =~= ss.subrange(start, i + 1));
        }
        running_chars = running_chars + s_len;
        running.push(s);
        assert(views(running@) =~= ss.subrange(start, i + 1));
        i = i + 1;
    }
    assert(ss.take(i as int) =~= ss);
    if running.len() > 0 {
        let ghost before = chunk_views(chunks@);
        chunks.push(running);
        assert(chunk_views(chunks@) =~= before.push(ss.subrange(start, i as int)));
    }
    chunks
}


/// The sentences of the chunks `cs`, in order.
pub open spec fn flatten_chunks(cs: Seq<Seq<Seq<char>>>) -> Seq<Seq<char>>
    decreases cs.len(),
{
    if cs.len() == 0 {
        Seq::empty()
    } else {
        flatten_chunks(cs.drop_last()) + cs.last()
    }
}

/// `b` begins with the sentences `a`.
pub open spec fn starts_with(b: Seq<Seq<char>>, a: Seq<Seq<char>>) -> bool {
    a.len() <= b.len() && b.take(a.len() as int) == a
}

/// What every chunking state keeps: closed chunks are non-empty, the
/// running chunk is non-empty once a sentence was read, and each chunk
/// (the running one included) begins with the overlap tail of the chunk
/// before it.
pub open spec fn scan_wf(ss: Seq<Seq<char>>, st: (Seq<Seq<Seq<char>>>, Seq<Seq<char>>), ov: nat) -> bool {
    &&& forall|j: int| 0 <= j < st.0.len() ==> (#[trigger] st.0[j]).len() > 0
    &&& ss.len() > 0 ==> st.1.len() > 0
    &&& forall|j: int|
        0 <= j < st.0.len() - 1 ==> starts_with(#[trigger] st.0[j + 1], last_n(st.0[j], ov))
    &&& st.0.len() > 0 ==> starts_with(st.1, last_n(st.0.last(), ov))
}

proof fn lemma_scan_wf(ss: Seq<Seq<char>>, max: nat, ov: nat)
    ensures
        scan_wf(ss, chunk_scan(ss, max, ov), ov),
    decreases ss.len(),
{
    if ss.len() > 0 {
        let prev = chunk_scan(ss.drop_last(), max, ov);
        lemma_scan_wf(ss.drop_last(), max, ov);
        let s = ss.last();
        let st = chunk_scan(ss, max, ov);
        if char_total(prev.1) + s.len() > max && prev.1.len() > 0 {
            let t = last_n(prev.1, ov);
            assert(st.1 == t.push(s));
            assert(st.1.take(t.len() as int) =~= t);
            assert forall|j: int| 0 <= j < st.0.len() - 1 implies starts_with(
                #[trigger] st.0[j + 1],
                last_n(st.0[j], ov),
            ) by {
                if j + 1 < prev.0.len() {
                    assert(st.0[j + 1] == prev.0[j + 1]);
                    assert(st.0[j] == prev.0[j]);
                } else {
                    assert(st.0[j + 1] == prev.1);
                    assert(st.0[j] == prev.0.last());
                }
            }
            assert forall|j: int| 0 <= j < st.0.len() implies (#[trigger] st.0[j]).len() > 0 by {
                if j < prev.0.len() {
                    assert(st.0[j] == prev.0[j]);
                }
            }
        } else {
            if prev.0.len() > 0 {
                let t = last_n(prev.0.last(), ov);
                assert(prev.1.push(s).take(t.len() as int) =~= prev.1.take(t.len() as int));
            }
        }
    }
}

/// Chunking never yields an empty chunk.
pub proof fn law_chunks_nonempty(ss: Seq<Seq<char>>, max: nat, ov: nat)
    ensures
        forall|j: int|
            0 <= j < chunks_of(ss, max, ov).len() ==> (#[trigger] chunks_of(ss, max, ov)[j]).len()
                > 0,
{
    lemma_scan_wf(ss, max, ov);
    let st = chunk_scan(ss, max, ov);
    let cs = chunks_of(ss, max, ov);
    assert forall|j: int| 0 <= j < cs.len() implies (#[trigger] cs[j]).len() > 0 by {
        if j < st.0.len() {
            assert(cs[j] == st.0[j]);
        }
    }
}

/// Each chunk begins with the last `overlap` sentences of the chunk
/// before it (all of them when that chunk is shorter).
pub proof fn law_chunk_overlap(ss: Seq<Seq<char>>, max: nat, ov: nat)
    ensures
        forall|j: int|
            0 <= j < chunks_of(ss, max, ov).len() - 1 ==> starts_with(
                #[trigger] chunks_of(ss, max, ov)[j + 1],
                last_n(chunks_of(ss, max, ov)[j], ov),
            ),
{
    lemma_scan_wf(ss, max, ov);
    let st = chunk_scan(ss, max, ov);
    let cs = chunks_of(ss, max, ov);
    assert forall|j: int| 0 <= j < cs.len() - 1 implies starts_with(
        #[trigger] cs[j + 1],
        last_n(cs[j], ov),
    ) by {
        if j + 1 < st.0.len() {
            assert(cs[j + 1] == st.0[j + 1]);
            assert(cs[j] == st.0[j]);
        } else {
            assert(cs[j + 1] == st.1);
            assert(cs[j] == st.0.last());
        }
    }
}

proof fn lemma_scan_no_overlap(ss: Seq<Seq<char>>, max: nat)
    ensures
        flatten_chunks(chunk_scan(ss, max, 0).0) + chunk_scan(ss, max, 0).1 == ss,
        forall|j: int|
            0 <= j < chunk_scan(ss, max, 0).0.len() && (#[trigger] chunk_scan(ss, max, 0).0[j]).len()
                >= 2 ==> char_total(chunk_scan(ss, max, 0).0[j]) <= max,
        chunk_scan(ss, max, 0).1.len() >= 2 ==> char_total(chunk_scan(ss, max, 0).1) <= max,
    decreases ss.len(),
{
    if ss.len() == 0 {
        assert(flatten_chunks(Seq::<Seq<Seq<char>>>::empty()) + Seq::<Seq<char>>::empty() =~= ss);
    } else {
        let prev = chunk_scan(ss.drop_last(), max, 0);
        lemma_scan_no_overlap(ss.drop_last(), max);
        let s = ss.last();
        let st = chunk_scan(ss, max, 0);
        if char_total(prev.1) + s.len() > max && prev.1.len() > 0 {
            assert(last_n(prev.1, 0) =~= Seq::<Seq<char>>::empty());
            assert(st.1 =~= seq![s]);
            assert(st.0.drop_last() =~= prev.0);
            assert(flatten_chunks(st.0) == flatten_chunks(prev.0) + prev.1);
            assert(flatten_chunks(st.0) + st.1 =~= ss.drop_last().push(s));
            assert forall|j: int|
                0 <= j < st.0.len() && (#[trigger] st.0[j]).len() >= 2 implies char_total(st.0[j])
                <= max by {
                if j < prev.0.len() {
                    assert(st.0[j] == prev.0[j]);
                }
            }
        } else {
            assert(st.1 == prev.1.push(s));
            assert(st.1.drop_last() =~= prev.1);
            assert(flatten_chunks(st.0) + st.1 =~= ss.drop_last().push(s));
            if prev.1.len() == 0 {
                assert(st.1.len() == 1);
            }
        }
        assert(ss.drop_last().push(s) =~= ss);
    }
}

/// Without overlap, the chunks hold every sentence once, in order, and a
/// chunk of two or more sentences stays within `max` characters; only a
/// single sentence can be longer.
pub proof fn law_chunks_partition_without_overlap(ss: Seq<Seq<char>>, max: nat)
    ensures
        flatten_chunks(chunks_of(ss, max, 0)) == ss,
        forall|j: int|
            0 <= j < chunks_of(ss, max, 0).len() && (#[trigger] chunks_of(ss, max, 0)[j]).len() >= 2
                ==> char_total(chunks_of(ss, max, 0)[j]) <= max,
{
    lemma_scan_no_overlap(ss, max);
    let st = chunk_scan(ss, max, 0);
    let cs = chunks_of(ss, max, 0);
    if st.1.len() > 0 {
        assert(cs.drop_last() =~= st.0);
    } else {
        assert(st.1 =~= Seq::<Seq<char>>::empty());
        assert(flatten_chunks(st.0) + st.1 =~= flatten_chunks(st.0));
    }
    assert forall|j: int| 0 <= j < cs.len() && (#[trigger] cs[j]).len() >= 2 implies char_total(cs[j])
        <= max by {
        if j < st.0.len() {
            assert(cs[j] == st.0[j]);
        }
    }
}


/// How many sentences chunk `k` of `cs` begins with that the chunk before
/// it already held: none for the first chunk, else `overlap` or, when the
/// chunk before is shorter, all of its sentences.
pub open spec fn carried(cs: Seq<Seq<Seq<char>>>, overlap: nat, k: int) -> int {
    if k <= 0 || k > cs.len() {
        0
    } else if overlap < cs[k - 1].len() {
        overlap as int
    } else {
        cs[k - 1].len() as int
    }
}

/// What the greedy filling keeps: a chunk that holds more than its carried
/// sentences and the first new one is within `max`, and a chunk was closed
/// only because the first new sentence of the next one would not fit.
pub open spec fn scan_limits(st: (Seq<Seq<Seq<char>>>, Seq<Seq<char>>), max: nat, ov: nat) -> bool {
    let n = st.0.len() as int;
    &&& forall|j: int|
        0 <= j < n && (#[trigger] st.0[j]).len() > carried(st.0, ov, j) + 1 ==> char_total(st.0[j])
            <= max
    &&& st.1.len() > carried(st.0, ov, n) + 1 ==> char_total(st.1) <= max
    &&& forall|j: int|
        0 <= j < n - 1 ==> carried(st.0, ov, j + 1) < (#[trigger] st.0[j + 1]).len() && char_total(
            st.0[j],
        ) + st.0[j + 1][carried(st.0, ov, j + 1)].len() > max
    &&& n > 0 ==> carried(st.0, ov, n) < st.1.len() && char_total(st.0[n - 1]) + st.1[carried(
        st.0,
        ov,
        n,
    )].len() > max
}

proof fn lemma_scan_limits(ss: Seq<Seq<char>>, max: nat, ov: nat)
    ensures
        scan_limits(chunk_scan(ss, max, ov), max, ov),
    decreases ss.len(),
{
    if ss.len() > 0 {
        let prev = chunk_scan(ss.drop_last(), max, ov);
        lemma_scan_limits(ss.drop_last(), max, ov);
        let s = ss.last();
        let st = chunk_scan(ss, max, ov);
        let n = prev.0.len() as int;
        if char_total(prev.1) + s.len() > max && prev.1.len() > 0 {
            let t = last_n(prev.1, ov);
            assert(st.0 == prev.0.push(prev.1));
            assert(st.1 == t.push(s));
            assert(carried(st.0, ov, n + 1) == t.len());
            assert(carried(st.0, ov, n) == carried(prev.0, ov, n));
            assert forall|j: int|
                0 <= j < n + 1 && (#[trigger] st.0[j]).len() > carried(st.0, ov, j) + 1 implies char_total(
                st.0[j],
            ) <= max by {
                if j < n {
                    assert(st.0[j] == prev.0[j]);
                    assert(carried(st.0, ov, j) == carried(prev.0, ov, j));
                }
            }
            assert forall|j: int| 0 <= j < n implies carried(st.0, ov, j + 1) < (#[trigger] st.0[j
                + 1]).len() && char_total(st.0[j]) + st.0[j + 1][carried(st.0, ov, j + 1)].len()
                > max by {
                assert(st.0[j] == prev.0[j]);
                assert(carried(st.0, ov, j + 1) == carried(prev.0, ov, j + 1));
                if j + 1 < n {
                    assert(st.0[j + 1] == prev.0[j + 1]);
                } else {
                    assert(st.0[j + 1] == prev.1);
                }
            }
            assert(st.1[t.len() as int] == s);
        } else {
            assert(st.0 == prev.0);
            assert(st.1 == prev.1.push(s));
            assert(st.1.drop_last() =~= prev.1);
            if n > 0 {
                assert(st.1[carried(st.0, ov, n)] == prev.1[carried(st.0, ov, n)]);
            }
        }
    }
}

/// Chunks are filled greedily up to the limit, carried sentences counted.
/// A chunk that goes on past the first new sentence after its carried
/// overlap holds at most `max` characters, and a chunk is closed only
/// where the first new sentence of the next chunk would have pushed it
/// past `max`.
pub proof fn law_chunks_fill_greedily(ss: Seq<Seq<char>>, max: nat, ov: nat)
    ensures
        forall|k: int|
            0 <= k < chunks_of(ss, max, ov).len() && (#[trigger] chunks_of(ss, max, ov)[k]).len()
                > carried(chunks_of(ss, max, ov), ov, k) + 1 ==> char_total(
                chunks_of(ss, max, ov)[k],
            ) <= max,
        forall|k: int|
            0 <= k < chunks_of(ss, max, ov).len() - 1 ==> carried(chunks_of(ss, max, ov), ov, k + 1)
                < (#[trigger] chunks_of(ss, max, ov)[k + 1]).len() && char_total(
                chunks_of(ss, max, ov)[k],
            ) + chunks_of(ss, max, ov)[k + 1][carried(chunks_of(ss, max, ov), ov, k + 1)].len()
                > max,
{
    lemma_scan_limits(ss, max, ov);
    lemma_scan_wf(ss, max, ov);
    let st = chunk_scan(ss, max, ov);
    let cs = chunks_of(ss, max, ov);
    let n = st.0.len() as int;
    assert forall|k: int| 0 <= k <= n && k < cs.len() implies carried(cs, ov, k) == carried(
        st.0,
        ov,
        k,
    ) by {
        if k > 0 {
            assert(cs[k - 1] == st.0[k - 1]);
        }
    }
    assert forall|k: int|
        0 <= k < cs.len() && (#[trigger] cs[k]).len() > carried(cs, ov, k) + 1 implies char_total(
        cs[k],
    ) <= max by {
        if k < n {
            assert(cs[k] == st.0[k]);
        } else {
            assert(cs[k] == st.1);
        }
    }
    assert forall|k: int| 0 <= k < cs.len() - 1 implies carried(cs, ov, k + 1) < (
    #[trigger] cs[k + 1]).len() && char_total(cs[k]) + cs[k + 1][carried(cs, ov, k + 1)].len()
        > max by {
        assert(cs[k] == st.0[k]);
        if k + 1 < n {
            assert(cs[k + 1] == st.0[k + 1]);
        } else {
            assert(cs[k + 1] == st.1);
        }
    }
}

} // verus!
