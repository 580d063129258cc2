//! How chunks are formed: every chunk is trimmed, and pieces that fit the
//! limit are packed whole and greedily, sentences first and words within an
//! over-long sentence.
use vstd::prelude::*;

use super::chunking::{
    all_within, char_pieces, char_splitter, ends_sentence, join_with_space, lemma_sentences,
    lemma_words, pack, pack_scan, push_nonempty, sentence_scan, sentences, text_chunks,
    word_chunks, word_scan, word_splitter, words,
};
use super::word_laws::join_spaces;
use crate::text::{
    is_white_space, lemma_trim_edges, lemma_trim_end_is_prefix, lemma_trim_start_is_suffix, trim,
    trim_end, trim_start,
};

verus! {

/// `s` is non-empty and neither starts nor ends with whitespace.
pub open spec fn is_trimmed(s: Seq<char>) -> bool {
    s.len() > 0 && !is_white_space(s[0]) && !is_white_space(s.last())
}

/// Every piece is trimmed.
pub open spec fn all_trimmed(pieces: Seq<Seq<char>>) -> bool {
    forall|i: int| 0 <= i < pieces.len() ==> is_trimmed(#[trigger] pieces[i])
}

/// `s` holds no whitespace.
pub open spec fn no_white_space(s: Seq<char>) -> bool {
    forall|i: int| 0 <= i < s.len() ==> !is_white_space(#[trigger] s[i])
}

/// Chunk `i` holds the whole pieces from `b[i]` up to `b[i + 1]` joined by
/// single spaces and, unless it is the last chunk, could not also have taken
/// the piece that follows without going over `max`.
pub open spec fn run_at(
    chunks: Seq<Seq<char>>,
    pieces: Seq<Seq<char>>,
    b: Seq<int>,
    i: int,
    max: nat,
) -> bool {
    &&& 0 <= b[i] < b[i + 1] <= pieces.len()
    &&& chunks[i] == join_spaces(pieces.subrange(b[i], b[i + 1]))
    &&& i + 1 < chunks.len() ==> join_spaces(pieces.subrange(b[i], b[i + 1] + 1)).len() > max
}

/// `chunks` are `pieces` packed greedily at the boundaries `b`: chunk `i`
/// holds the whole pieces from `b[i]` up to `b[i + 1]` joined by single
/// spaces, and every chunk but the last could not also have taken the piece
/// that follows it without going over `max`.
pub open spec fn packed_greedily(
    chunks: Seq<Seq<char>>,
    pieces: Seq<Seq<char>>,
    b: Seq<int>,
    max: nat,
) -> bool {
    &&& b.len() == chunks.len() + 1
    &&& b[0] == 0
    &&& b.last() == pieces.len()
    &&& forall|i: int| 0 <= i < chunks.len() ==> #[trigger] run_at(chunks, pieces, b, i, max)
}

proof fn lemma_trimmed_is_trim(s: Seq<char>)
    requires
        is_trimmed(s),
    ensures
        trim(s) == s,
{
    assert(trim_start(s) == s);
    assert(trim_end(s) == s);
}

proof fn lemma_join_trimmed(a: Seq<char>, p: Seq<char>)
    requires
        a.len() == 0 || is_trimmed(a),
        is_trimmed(p),
    ensures
        is_trimmed(join_with_space(a, p)),
{
    if a.len() > 0 {
        let j = a + seq![' '] + p;
        assert(j[0] == a[0]);
        assert(j.last() == p.last());
    }
}

proof fn lemma_push_trimmed(acc: Seq<Seq<char>>, piece: Seq<char>)
    requires
        all_trimmed(acc),
        piece.len() == 0 || is_trimmed(piece),
    ensures
        all_trimmed(push_nonempty(acc, piece)),
{
    if piece.len() > 0 {
        assert forall|i: int| 0 <= i < acc.push(piece).len() implies is_trimmed(
            #[trigger] acc.push(piece)[i],
        ) by {
            if i < acc.len() {
                assert(acc.push(piece)[i] == acc[i]);
            }
        }
    }
}

proof fn lemma_append_trimmed(a: Seq<Seq<char>>, b: Seq<Seq<char>>)
    requires
        all_trimmed(a),
        all_trimmed(b),
    ensures
        all_trimmed(a + b),
{
    assert forall|i: int| 0 <= i < (a + b).len() implies is_trimmed(#[trigger] (a + b)[i]) by {
        if i < a.len() {
            assert((a + b)[i] == a[i]);
        } else {
            assert((a + b)[i] == b[i - a.len()]);
        }
    }
}

/// Packing trimmed pieces, with over-long ones split into trimmed pieces,
/// gives trimmed chunks.
proof fn lemma_pack_scan_trimmed(
    pieces: Seq<Seq<char>>,
    n: nat,
    max: nat,
    split: spec_fn(Seq<char>) -> Seq<Seq<char>>,
)
    requires
        n <= pieces.len(),
        forall|i: int|
            0 <= i < pieces.len() ==> is_trimmed(#[trigger] pieces[i]) && (pieces[i].len() > max
                ==> all_trimmed(split(pieces[i]))),
    ensures
        all_trimmed(pack_scan(pieces, n, max, split).0),
        pack_scan(pieces, n, max, split).1.len() == 0 || is_trimmed(
            pack_scan(pieces, n, max, split).1,
        ),
    decreases n,
{
    if n > 0 {
        let st = pack_scan(pieces, (n - 1) as nat, max, split);
        lemma_pack_scan_trimmed(pieces, (n - 1) as nat, max, split);
        let p = pieces[n - 1];
        assert(is_trimmed(p));
        if p.len() > max {
            lemma_push_trimmed(st.0, st.1);
            lemma_append_trimmed(push_nonempty(st.0, st.1), split(p));
        } else if join_with_space(st.1, p).len() > max {
            assert(st.1.len() > 0);
            lemma_push_trimmed(st.0, st.1);
        } else {
            lemma_join_trimmed(st.1, p);
        }
    }
}

proof fn lemma_pack_trimmed(
    pieces: Seq<Seq<char>>,
    max: nat,
    split: spec_fn(Seq<char>) -> Seq<Seq<char>>,
)
    requires
        forall|i: int|
            0 <= i < pieces.len() ==> is_trimmed(#[trigger] pieces[i]) && (pieces[i].len() > max
                ==> all_trimmed(split(pieces[i]))),
    ensures
        all_trimmed(pack(pieces, max, split)),
{
    let st = pack_scan(pieces, pieces.len(), max, split);
    lemma_pack_scan_trimmed(pieces, pieces.len(), max, split);
    lemma_push_trimmed(st.0, st.1);
}

proof fn lemma_sentence_scan_trimmed(s: Seq<char>, n: nat)
    requires
        n <= s.len(),
    ensures
        all_trimmed(sentence_scan(s, n).0),
    decreases n,
{
    if n > 0 {
        let prev = sentence_scan(s, (n - 1) as nat);
        lemma_sentence_scan_trimmed(s, (n - 1) as nat);
        let cur = prev.1.push(s[n - 1]);
        if ends_sentence(s, n - 1) {
            lemma_trim_edges(cur);
            lemma_push_trimmed(prev.0, trim(cur));
        }
    }
}

proof fn lemma_sentences_trimmed(s: Seq<char>)
    ensures
        all_trimmed(sentences(s)),
{
    let st = sentence_scan(s, s.len());
    lemma_sentence_scan_trimmed(s, s.len());
    lemma_trim_edges(st.1);
    lemma_push_trimmed(st.0, trim(st.1));
}

proof fn lemma_word_scan_no_space(s: Seq<char>, n: nat)
    requires
        n <= s.len(),
    ensures
        forall|i: int|
            0 <= i < word_scan(s, n).0.len() ==> no_white_space(#[trigger] word_scan(s, n).0[i]),
        no_white_space(word_scan(s, n).1),
    decreases n,
{
    if n > 0 {
        let prev = word_scan(s, (n - 1) as nat);
        lemma_word_scan_no_space(s, (n - 1) as nat);
        if is_white_space(s[n - 1]) {
            let acc = push_nonempty(prev.0, prev.1);
            assert forall|i: int| 0 <= i < acc.len() implies no_white_space(#[trigger] acc[i]) by {
                if i < prev.0.len() {
                    assert(acc[i] == prev.0[i]);
                }
            }
        } else {
            let w = prev.1.push(s[n - 1]);
            assert forall|i: int| 0 <= i < w.len() implies !is_white_space(#[trigger] w[i]) by {
                if i < prev.1.len() {
                    assert(w[i] == prev.1[i]);
                }
            }
        }
    }
}

proof fn lemma_words_no_space(s: Seq<char>)
    ensures
        forall|i: int| 0 <= i < words(s).len() ==> no_white_space(#[trigger] words(s)[i]),
{
    let st = word_scan(s, s.len());
    lemma_word_scan_no_space(s, s.len());
    assert forall|i: int| 0 <= i < words(s).len() implies no_white_space(#[trigger] words(s)[i]) by {
        if i < st.0.len() {
            assert(words(s)[i] == st.0[i]);
        }
    }
}

proof fn lemma_no_space_trimmed(s: Seq<char>)
    requires
        s.len() > 0,
        no_white_space(s),
    ensures
        is_trimmed(s),
{
    assert(!is_white_space(s[0]));
    assert(!is_white_space(s[s.len() - 1]));
}

proof fn lemma_words_trimmed(s: Seq<char>)
    ensures
        all_trimmed(words(s)),
        forall|i: int| 0 <= i < words(s).len() ==> no_white_space(#[trigger] words(s)[i]),
{
    lemma_words(s);
    lemma_words_no_space(s);
    assert forall|i: int| 0 <= i < words(s).len() implies is_trimmed(#[trigger] words(s)[i]) by {
        lemma_no_space_trimmed(words(s)[i]);
    }
}

proof fn lemma_char_pieces_trimmed(w: Seq<char>, max: nat)
    requires
        no_white_space(w),
    ensures
        all_trimmed(char_pieces(w, max)),
    decreases w.len(),
{
    if max > 0 && w.len() > 0 {
        if w.len() <= max {
            lemma_no_space_trimmed(w);
        } else {
            let head = w.take(max as int);
            let tail = w.skip(max as int);
            assert(no_white_space(head)) by {
                assert forall|i: int| 0 <= i < head.len() implies !is_white_space(
                    #[trigger] head[i],
                ) by {
                    assert(head[i] == w[i]);
                }
            }
            assert(no_white_space(tail)) by {
                assert forall|i: int| 0 <= i < tail.len() implies !is_white_space(
                    #[trigger] tail[i],
                ) by {
                    assert(tail[i] == w[i + max]);
                }
            }
            lemma_no_space_trimmed(head);
            lemma_char_pieces_trimmed(tail, max);
            lemma_append_trimmed(seq![head], char_pieces(tail, max));
        }
    }
}

proof fn lemma_word_chunks_trimmed(sentence: Seq<char>, max: nat)
    ensures
        all_trimmed(word_chunks(sentence, max)),
{
    let ws = words(sentence);
    lemma_words_trimmed(sentence);
    assert forall|i: int| 0 <= i < ws.len() implies is_trimmed(#[trigger] ws[i]) && (ws[i].len()
        > max ==> all_trimmed(char_splitter(max)(ws[i]))) by {
        lemma_char_pieces_trimmed(ws[i], max);
    }
    lemma_pack_trimmed(ws, max, char_splitter(max));
}

/// Every chunk is trimmed: it is non-empty, neither starts nor ends with
/// whitespace, and so is left as it is by trimming.
pub proof fn lemma_chunks_trimmed(text: Seq<char>, max: nat)
    ensures
        forall|i: int|
            0 <= i < text_chunks(text, max).len() ==> is_trimmed(#[trigger] text_chunks(text, max)[i])
                && trim(text_chunks(text, max)[i]) == text_chunks(text, max)[i],
{
    let ss = sentences(trim(text));
    lemma_sentences_trimmed(trim(text));
    assert forall|i: int| 0 <= i < ss.len() implies is_trimmed(#[trigger] ss[i]) && (ss[i].len()
        > max ==> all_trimmed(word_splitter(max)(ss[i]))) by {
        lemma_word_chunks_trimmed(ss[i], max);
    }
    lemma_pack_trimmed(ss, max, word_splitter(max));
    let chunks = text_chunks(text, max);
    assert forall|i: int| 0 <= i < chunks.len() implies is_trimmed(#[trigger] chunks[i]) && trim(
        chunks[i],
    ) == chunks[i] by {
        lemma_trimmed_is_trim(chunks[i]);
    }
}

proof fn lemma_join_spaces_nonempty(ps: Seq<Seq<char>>)
    requires
        ps.len() > 0,
        ps.last().len() > 0,
    ensures
        join_spaces(ps).len() > 0,
{
}

proof fn lemma_join_spaces_push(a: Seq<Seq<char>>, x: Seq<char>)
    requires
        a.len() > 0 ==> a.last().len() > 0,
    ensures
        join_spaces(a.push(x)) == join_with_space(join_spaces(a), x),
{
    assert(a.push(x).drop_last() =~= a);
    if a.len() > 0 {
        lemma_join_spaces_nonempty(a);
    }
}

/// Closed chunk `i` holds the pieces from `b[i]` up to `b[i + 1]`, and could
/// not also have taken the piece after them.
spec fn closed_run(
    pieces: Seq<Seq<char>>,
    closed: Seq<Seq<char>>,
    b: Seq<int>,
    i: int,
    max: nat,
) -> bool {
    &&& 0 <= b[i] < b[i + 1] <= pieces.len()
    &&& closed[i] == join_spaces(pieces.subrange(b[i], b[i + 1]))
    &&& join_spaces(pieces.subrange(b[i], b[i + 1] + 1)).len() > max
}

/// What greedy packing of fitting pieces has built after `n` of them: the
/// closed chunks cut at the boundaries `b`, and the open chunk holding the
/// pieces from the last boundary up to `n`.
spec fn greedy_state(
    pieces: Seq<Seq<char>>,
    n: nat,
    st: (Seq<Seq<char>>, Seq<char>),
    b: Seq<int>,
    max: nat,
) -> bool {
    &&& b.len() == st.0.len() + 1
    &&& b[0] == 0
    &&& 0 <= b.last() <= n
    &&& st.0.len() > 0 ==> b.last() < n
    &&& st.1 == join_spaces(pieces.subrange(b.last(), n as int))
    &&& forall|i: int| 0 <= i < st.0.len() ==> #[trigger] closed_run(pieces, st.0, b, i, max)
}

proof fn lemma_pack_scan_greedy(
    pieces: Seq<Seq<char>>,
    n: nat,
    max: nat,
    split: spec_fn(Seq<char>) -> Seq<Seq<char>>,
) -> (b: Seq<int>)
    requires
        n <= pieces.len(),
        all_within(pieces, max),
    ensures
        greedy_state(pieces, n, pack_scan(pieces, n, max, split), b, max),
    decreases n,
{
    if n == 0 {
        assert(pieces.subrange(0, 0) =~= Seq::<Seq<char>>::empty());
        seq![0int]
    } else {
        let st = pack_scan(pieces, (n - 1) as nat, max, split);
        let b0 = lemma_pack_scan_greedy(pieces, (n - 1) as nat, max, split);
        let p = pieces[n - 1];
        let s = b0.last();
        let run = pieces.subrange(s, n - 1);
        assert(pieces.subrange(s, n as int) =~= run.push(p));
        assert(p.len() > 0 && p.len() <= max);
        if run.len() > 0 {
            assert(run.last() == pieces[n - 2]);
        }
        lemma_join_spaces_push(run, p);
        let nst = pack_scan(pieces, n, max, split);
        if join_with_space(st.1, p).len() > max {
            assert(st.1.len() > 0);
            let b1 = b0.push(n - 1);
            assert(pieces.subrange(n - 1, n as int) =~= seq![p]);
            assert forall|i: int| 0 <= i < nst.0.len() implies #[trigger] closed_run(
                pieces,
                nst.0,
                b1,
                i,
                max,
            ) by {
                if i < st.0.len() {
                    assert(closed_run(pieces, st.0, b0, i, max));
                    assert(nst.0[i] == st.0[i]);
                    assert(b1[i] == b0[i]);
                    assert(b1[i + 1] == b0[i + 1]);
                } else {
                    assert(i == st.0.len());
                    assert(nst.0[i] == st.1);
                    assert(b1[i] == s);
                    assert(b1[i + 1] == n - 1);
                    if st.0.len() > 0 {
                        assert(closed_run(pieces, st.0, b0, st.0.len() - 1, max));
                    }
                }
            }
            assert(nst.0 == st.0.push(st.1));
            assert(nst.1 == p);
            assert(b1.last() == n - 1);
            assert(b1[0] == b0[0]);
            assert(nst.1 == join_spaces(pieces.subrange(b1.last(), n as int)));
            assert(greedy_state(pieces, n, nst, b1, max));
            b1
        } else {
            assert(nst.0 == st.0);
            assert(nst.1 == join_with_space(st.1, p));
            assert(nst.1 == join_spaces(pieces.subrange(s, n as int)));
            assert forall|i: int| 0 <= i < nst.0.len() implies #[trigger] closed_run(
                pieces,
                nst.0,
                b0,
                i,
                max,
            ) by {
                assert(closed_run(pieces, st.0, b0, i, max));
            }
            assert(greedy_state(pieces, n, nst, b0, max));
            b0
        }
    }
}

/// Pieces that all fit the limit are packed whole and greedily, whatever
/// over-long pieces would be split into.
proof fn lemma_pack_greedy(
    pieces: Seq<Seq<char>>,
    max: nat,
    split: spec_fn(Seq<char>) -> Seq<Seq<char>>,
) -> (b: Seq<int>)
    requires
        all_within(pieces, max),
    ensures
        packed_greedily(pack(pieces, max, split), pieces, b, max),
{
    let n = pieces.len();
    let st = pack_scan(pieces, n, max, split);
    let b0 = lemma_pack_scan_greedy(pieces, n, max, split);
    let chunks = pack(pieces, max, split);
    if n == 0 {
        assert(pieces.subrange(0, 0) =~= Seq::<Seq<char>>::empty());
        assert(chunks.len() == 0);
        b0
    } else {
        let s = b0.last();
        assert(s < n) by {
            if st.0.len() == 0 {
                assert(s == b0[0]);
            }
        }
        let run = pieces.subrange(s, n as int);
        assert(run.last() == pieces[n - 1]);
        lemma_join_spaces_nonempty(run);
        assert(st.1.len() > 0);
        let b1 = b0.push(n as int);
        assert(chunks == st.0.push(st.1));
        assert forall|i: int| 0 <= i < chunks.len() implies #[trigger] run_at(
            chunks,
            pieces,
            b1,
            i,
            max,
        ) by {
            if i < st.0.len() {
                assert(closed_run(pieces, st.0, b0, i, max));
                assert(chunks[i] == st.0[i]);
                assert(b1[i] == b0[i]);
                assert(b1[i + 1] == b0[i + 1]);
            } else {
                assert(chunks[i] == st.1);
                assert(b1[i] == s);
                if st.0.len() > 0 {
                    assert(closed_run(pieces, st.0, b0, st.0.len() - 1, max));
                }
            }
        }
        assert(packed_greedily(chunks, pieces, b1, max));
        b1
    }
}

/// When no sentence of the text is over the limit, the chunks are its
/// sentences packed greedily: each chunk is a run of whole sentences joined
/// by single spaces, and each chunk but the last could not also take the
/// sentence after it without going over the limit. The returned boundaries
/// say where each run starts and ends.
pub proof fn lemma_sentences_packed_greedily(text: Seq<char>, max: nat) -> (b: Seq<int>)
    requires
        forall|i: int|
            0 <= i < sentences(trim(text)).len() ==> #[trigger] sentences(trim(text))[i].len()
                <= max,
    ensures
        packed_greedily(text_chunks(text, max), sentences(trim(text)), b, max),
{
    lemma_sentences(trim(text));
    lemma_pack_greedy(sentences(trim(text)), max, word_splitter(max))
}

/// A sentence is packed word by word in the same greedy way when none of its
/// words is over the limit: each of its chunks is a run of whole words joined
/// by single spaces, and each but the last could not also take the next word.
pub proof fn lemma_words_packed_greedily(sentence: Seq<char>, max: nat) -> (b: Seq<int>)
    requires
        forall|i: int| 0 <= i < words(sentence).len() ==> #[trigger] words(sentence)[i].len() <= max,
    ensures
        packed_greedily(word_chunks(sentence, max), words(sentence), b, max),
{
    lemma_words(sentence);
    lemma_pack_greedy(words(sentence), max, char_splitter(max))
}

/// `.`, `!` or `?` followed by whitespace: where a sentence ends.
pub open spec fn mark_then_space(c: char, next: char) -> bool {
    (c == '.' || c == '!' || c == '?') && is_white_space(next)
}

/// No `.`, `!` or `?` inside `p` is followed by whitespace.
pub open spec fn no_inner_sentence_end(p: Seq<char>) -> bool {
    forall|j: int| 0 <= j < p.len() - 1 ==> !mark_then_space(#[trigger] p[j], p[j + 1])
}

/// `p` ends with `.`, `!` or `?`.
pub open spec fn ends_with_mark(p: Seq<char>) -> bool {
    p.len() > 0 && (p.last() == '.' || p.last() == '!' || p.last() == '?')
}

proof fn lemma_no_inner_end_subrange(p: Seq<char>, a: int, b: int)
    requires
        0 <= a <= b <= p.len(),
        no_inner_sentence_end(p),
    ensures
        no_inner_sentence_end(p.subrange(a, b)),
{
    let q = p.subrange(a, b);
    assert forall|j: int| 0 <= j < q.len() - 1 implies !mark_then_space(#[trigger] q[j], q[j + 1]) by {
        assert(q[j] == p[a + j]);
        assert(q[j + 1] == p[a + j + 1]);
    }
}

proof fn lemma_trim_start_keeps_last(x: Seq<char>)
    requires
        x.len() > 0,
        !is_white_space(x.last()),
    ensures
        trim_start(x).len() > 0,
        trim_start(x).last() == x.last(),
    decreases x.len(),
{
    if is_white_space(x[0]) {
        assert(x.len() > 1);
        assert(x.drop_first().last() == x.last());
        lemma_trim_start_keeps_last(x.drop_first());
    }
}

/// Trimming keeps both properties: it cuts a contiguous part, and a last
/// character that is not whitespace stays last.
proof fn lemma_trim_sentence(x: Seq<char>)
    requires
        no_inner_sentence_end(x),
    ensures
        no_inner_sentence_end(trim(x)),
        ends_with_mark(x) ==> ends_with_mark(trim(x)),
{
    let y = trim_start(x);
    lemma_trim_start_is_suffix(x);
    lemma_trim_end_is_prefix(y);
    let a = x.len() - y.len();
    let l = trim_end(y).len();
    assert(trim(x) =~= x.subrange(a, a + l));
    lemma_no_inner_end_subrange(x, a, a + l);
    if ends_with_mark(x) {
        assert(!is_white_space(x.last()));
        lemma_trim_start_keeps_last(x);
        assert(trim_end(y) == y);
    }
}

/// What reading the first `n` characters leaves: closed sentences that end
/// with a mark and hold no inner sentence end, and an open sentence made of
/// the last characters read, none of which ends a sentence.
spec fn scan_state_ok(s: Seq<char>, n: nat, st: (Seq<Seq<char>>, Seq<char>)) -> bool {
    &&& forall|i: int|
        0 <= i < st.0.len() ==> ends_with_mark(#[trigger] st.0[i]) && no_inner_sentence_end(
            st.0[i],
        )
    &&& st.1.len() <= n
    &&& forall|j: int|
        0 <= j < st.1.len() ==> #[trigger] st.1[j] == s[n - st.1.len() + j] && !ends_sentence(
            s,
            n - st.1.len() + j,
        )
}

proof fn lemma_open_no_inner_end(s: Seq<char>, n: nat, open: Seq<char>)
    requires
        n <= s.len(),
        open.len() <= n,
        forall|j: int|
            0 <= j < open.len() ==> #[trigger] open[j] == s[n - open.len() + j] && !ends_sentence(
                s,
                n - open.len() + j,
            ),
    ensures
        no_inner_sentence_end(open),
{
    assert forall|j: int| 0 <= j < open.len() - 1 implies !mark_then_space(
        #[trigger] open[j],
        open[j + 1],
    ) by {
        let k = n - open.len() + j;
        assert(open[j] == s[k]);
        assert(!ends_sentence(s, k));
        assert(open[j + 1] == s[k + 1]);
    }
}

proof fn lemma_sentence_scan_marks(s: Seq<char>, n: nat)
    requires
        n <= s.len(),
    ensures
        scan_state_ok(s, n, sentence_scan(s, n)),
    decreases n,
{
    if n > 0 {
        let prev = sentence_scan(s, (n - 1) as nat);
        lemma_sentence_scan_marks(s, (n - 1) as nat);
        let cur = prev.1.push(s[n - 1]);
        if ends_sentence(s, n - 1) {
            assert forall|j: int| 0 <= j < cur.len() - 1 implies !mark_then_space(
                #[trigger] cur[j],
                cur[j + 1],
            ) by {
                let k = (n - 1) - prev.1.len() + j;
                assert(cur[j] == prev.1[j]);
                assert(prev.1[j] == s[k] && !ends_sentence(s, k));
                if j + 1 < prev.1.len() {
                    assert(cur[j + 1] == prev.1[j + 1]);
                    assert(prev.1[j + 1] == s[k + 1]);
                } else {
                    assert(cur[j + 1] == s[n - 1]);
                }
            }
            assert(cur.last() == s[n - 1]);
            lemma_trim_sentence(cur);
            let acc = push_nonempty(prev.0, trim(cur));
            assert forall|i: int| 0 <= i < acc.len() implies ends_with_mark(#[trigger] acc[i])
                && no_inner_sentence_end(acc[i]) by {
                if i < prev.0.len() {
                    assert(acc[i] == prev.0[i]);
                }
            }
        } else {
            assert forall|j: int| 0 <= j < cur.len() implies #[trigger] cur[j] == s[n - cur.len()
                + j] && !ends_sentence(s, n - cur.len() + j) by {
                if j < prev.1.len() {
                    assert(cur[j] == prev.1[j]);
                }
            }
        }
    }
}

/// Sentences break exactly at sentence marks: no sentence holds a `.`, `!`
/// or `?` followed by whitespace, and every sentence but the last ends with
/// `.`, `!` or `?`.
pub proof fn lemma_sentence_boundaries(s: Seq<char>)
    ensures
        forall|i: int|
            0 <= i < sentences(s).len() ==> no_inner_sentence_end(#[trigger] sentences(s)[i]),
        forall|i: int| 0 <= i < sentences(s).len() - 1 ==> ends_with_mark(#[trigger] sentences(s)[i]),
{
    let st = sentence_scan(s, s.len());
    lemma_sentence_scan_marks(s, s.len());
    lemma_open_no_inner_end(s, s.len(), st.1);
    lemma_trim_sentence(st.1);
    let all = sentences(s);
    assert forall|i: int| 0 <= i < all.len() implies no_inner_sentence_end(#[trigger] all[i]) by {
        if i < st.0.len() {
            assert(all[i] == st.0[i]);
        }
    }
    assert forall|i: int| 0 <= i < all.len() - 1 implies ends_with_mark(#[trigger] all[i]) by {
        assert(i < st.0.len());
        assert(all[i] == st.0[i]);
    }
}

} // verus!
